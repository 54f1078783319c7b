//! Low-level verified string machinery: character-exact building blocks that
//! the rest of the library states its contracts with.

use vstd::prelude::*;
use vstd::string::StrSliceExecFns;
use vstd::string::StringExecFns;

verus! {

/// Relies on `String::push`: appends the character to the end of the string.
#[verifier::external_body]
pub fn push_char(s: &mut String, c: char)
    ensures
        final(s)@ == old(s)@.push(c),
{
    s.push(c);
}

/// Character-for-character equality of two string slices.
pub fn str_eq(a: &str, b: &str) -> (r: bool)
    ensures
        r == (a@ == b@),
{
    let n = a.unicode_len();
    let m = b.unicode_len();
    if n != m {
        return false;
    }
    let mut i: usize = 0;
    while i < n
        invariant
            n == a@.len(),
            n == b@.len(),
            i <= n,
            forall|j: int| 0 <= j < i ==> a@[j] == b@[j],
        decreases n - i,
    {
        if a.get_char(i) != b.get_char(i) {
            return false;
        }
        i = i + 1;
    }
    proof {
        assert(a@ =~= b@);
    }
    true
}

/// Whether the sequence `v` holds a string whose characters are `s`.
pub open spec fn seq_contains_str(v: Seq<Seq<char>>, s: Seq<char>) -> bool {
    exists|i: int| 0 <= i < v.len() && v[i] == s
}

/// Whether one of the strings in `v` has exactly the characters of `s`.
pub fn contains_str(v: &Vec<String>, s: &str) -> (r: bool)
    ensures
        r == seq_contains_str(v.deep_view(), s@),
{
    let mut i: usize = 0;
    while i < v.len()
        invariant
            i <= v.len(),
            forall|j: int| 0 <= j < i ==> v.deep_view()[j] != s@,
        decreases v.len() - i,
    {
        assert(v.deep_view()[i as int] == v@[i as int]@);
        if str_eq(v[i].as_str(), s) {
            return true;
        }
        i = i + 1;
    }
    false
}

/// The decimal digit character for `d`.
pub open spec fn digit_char(d: int) -> char {
    if d == 0 {
        '0'
    } else if d == 1 {
        '1'
    } else if d == 2 {
        '2'
    } else if d == 3 {
        '3'
    } else if d == 4 {
        '4'
    } else if d == 5 {
        '5'
    } else if d == 6 {
        '6'
    } else if d == 7 {
        '7'
    } else if d == 8 {
        '8'
    } else {
        '9'
    }
}

/// The decimal rendering of a natural number, most significant digit first,
/// with no leading zeros (`0` itself is rendered `"0"`).
pub open spec fn spec_dec_nat(n: nat) -> Seq<char>
    decreases n,
{
    if n < 10 {
        seq![digit_char(n as int)]
    } else {
        spec_dec_nat(n / 10).push(digit_char((n % 10) as int))
    }
}

fn digit(n: u64) -> (c: char)
    requires
        n < 10,
    ensures
        c == digit_char(n as int),
{
    if n == 0 {
        '0'
    } else if n == 1 {
        '1'
    } else if n == 2 {
        '2'
    } else if n == 3 {
        '3'
    } else if n == 4 {
        '4'
    } else if n == 5 {
        '5'
    } else if n == 6 {
        '6'
    } else if n == 7 {
        '7'
    } else if n == 8 {
        '8'
    } else {
        '9'
    }
}

/// Appends the decimal rendering of `n` to `s`.
pub fn push_dec_u64(s: &mut String, n: u64)
    ensures
        final(s)@ == old(s)@ + spec_dec_nat(n as nat),
    decreases n,
{
    if n < 10 {
        push_char(s, digit(n));
        proof {
            assert(s@ =~= old(s)@ + spec_dec_nat(n as nat));
        }
    } else {
        push_dec_u64(s, n / 10);
        push_char(s, digit(n % 10));
        proof {
            assert(s@ =~= old(s)@ + spec_dec_nat(n as nat));
        }
    }
}

/// The decimal rendering of `n`.
pub fn u64_to_dec(n: u64) -> (r: String)
    ensures
        r@ == spec_dec_nat(n as nat),
{
    let mut s = String::new();
    push_dec_u64(&mut s, n);
    proof {
        assert(s@ =~= spec_dec_nat(n as nat));
    }
    s
}

/// A run of `n` spaces.
pub open spec fn spec_spaces(n: nat) -> Seq<char>
    decreases n,
{
    if n == 0 {
        Seq::empty()
    } else {
        spec_spaces((n - 1) as nat).push(' ')
    }
}

/// `s` padded on the right with spaces to at least `width` characters.
pub open spec fn spec_pad(s: Seq<char>, width: int) -> Seq<char> {
    if s.len() >= width {
        s
    } else {
        s + spec_spaces((width - s.len()) as nat)
    }
}

/// Appends `piece`, padded on the right with spaces to `width` characters.
pub fn append_padded(out: &mut String, piece: &str, width: usize)
    ensures
        final(out)@ == old(out)@ + spec_pad(piece@, width as int),
{
    out.append(piece);
    let n = piece.unicode_len();
    if n >= width {
        return ;
    }
    let mut k: usize = 0;
    while k < width - n
        invariant
            n == piece@.len(),
            n < width,
            k <= width - n,
            out@ == old(out)@ + piece@ + spec_spaces(k as nat),
        decreases width - n - k,
    {
        push_char(out, ' ');
        proof {
            assert(old(out)@ + piece@ + spec_spaces((k + 1) as nat) =~= (old(out)@ + piece@
                + spec_spaces(k as nat)).push(' '));
        }
        k = k + 1;
    }
    proof {
        assert(out@ =~= old(out)@ + spec_pad(piece@, width as int));
    }
}

/// The index of the first newline in `s`, or `s.len()` if there is none.
pub open spec fn first_nl(s: Seq<char>) -> int
    decreases s.len(),
{
    if s.len() == 0 {
        0
    } else if s[0] == '\n' {
        0
    } else {
        1 + first_nl(s.drop_first())
    }
}

pub proof fn lemma_first_nl(s: Seq<char>)
    ensures
        0 <= first_nl(s) <= s.len(),
        first_nl(s) < s.len() ==> s[first_nl(s)] == '\n',
        forall|j: int| 0 <= j < first_nl(s) ==> s[j] != '\n',
    decreases s.len(),
{
    if s.len() > 0 && s[0] != '\n' {
        lemma_first_nl(s.drop_first());
        assert forall|j: int| 0 <= j < first_nl(s) implies s[j] != '\n' by {
            if j > 0 {
                assert(s.drop_first()[j - 1] == s[j]);
            }
        }
        if first_nl(s) < s.len() {
            assert(s.drop_first()[first_nl(s.drop_first())] == s[first_nl(s)]);
        }
    }
}

/// Any index with the defining properties of `first_nl` is `first_nl`.
pub proof fn lemma_first_nl_unique(s: Seq<char>, e: int)
    requires
        0 <= e <= s.len(),
        e < s.len() ==> s[e] == '\n',
        forall|j: int| 0 <= j < e ==> s[j] != '\n',
    ensures
        e == first_nl(s),
{
    lemma_first_nl(s);
    if e < first_nl(s) {
        assert(s[e] != '\n');
    } else if first_nl(s) < e {
        assert(s[first_nl(s)] != '\n');
    }
}

/// A line with a trailing carriage return stripped, as the line ending
/// sequence carriage return + newline leaves it.
pub open spec fn strip_cr(l: Seq<char>) -> Seq<char> {
    if l.len() > 0 && l.last() == '\r' {
        l.drop_last()
    } else {
        l
    }
}

/// The lines of `s`: split at newlines, a carriage return directly before a
/// newline is dropped, and a final line ending is optional.
pub open spec fn spec_lines(s: Seq<char>) -> Seq<Seq<char>>
    decreases s.len(),
    via spec_lines_dec
{
    if s.len() == 0 {
        Seq::empty()
    } else {
        let i = first_nl(s);
        if i == s.len() {
            seq![s]
        } else {
            seq![strip_cr(s.take(i))] + spec_lines(s.skip(i + 1))
        }
    }
}

#[via_fn]
proof fn spec_lines_dec(s: Seq<char>) {
    if s.len() > 0 {
        lemma_first_nl(s);
    }
}

/// Splits `s` into its lines.
pub fn split_lines(s: &str) -> (r: Vec<String>)
    ensures
        r.deep_view() == spec_lines(s@),
{
    let n = s.unicode_len();
    let mut lines: Vec<String> = Vec::new();
    let mut start: usize = 0;
    proof {
        assert(s@.skip(0) =~= s@);
        assert(lines.deep_view() =~= Seq::<Seq<char>>::empty());
        assert(Seq::<Seq<char>>::empty() + spec_lines(s@) =~= spec_lines(s@));
    }
    while start < n
        invariant
            n == s@.len(),
            start <= n,
            lines.deep_view() + spec_lines(s@.skip(start as int)) == spec_lines(s@),
        decreases n - start,
    {
        let ghost rest = s@.skip(start as int);
        // find the next newline at or after `start`
        let mut end: usize = start;
        while end < n && s.get_char(end) != '\n'
            invariant
                n == s@.len(),
                start <= end <= n,
                forall|j: int| start <= j < end ==> s@[j] != '\n',
            decreases n - end,
        {
            end = end + 1;
        }
        proof {
            assert forall|j: int| 0 <= j < end - start implies rest[j] != '\n' by {
                assert(rest[j] == s@[start + j]);
            }
            if end < n {
                assert(rest[end - start] == s@[end as int]);
            }
            lemma_first_nl_unique(rest, end - start);
        }
        // the line runs to `end`, minus a carriage return directly before a newline
        let line_end = if end < n && end > start && s.get_char(end - 1) == '\r' {
            end - 1
        } else {
            end
        };
        let mut line = String::new();
        let mut j = start;
        while j < line_end
            invariant
                n == s@.len(),
                start <= j <= line_end <= n,
                line@ == s@.subrange(start as int, j as int),
            decreases line_end - j,
        {
            push_char(&mut line, s.get_char(j));
            proof {
                assert(s@.subrange(start as int, j + 1) =~= s@.subrange(start as int, j as int).push(
                    s@[j as int]));
            }
            j = j + 1;
        }
        let ghost pre_dv = lines.deep_view();
        lines.push(line);
        proof {
            assert(lines.deep_view() =~= pre_dv.push(line@));
            let i = first_nl(rest);
            assert(i == end - start);
            if end == n {
                assert(line@ =~= rest);
                assert(spec_lines(rest) == seq![rest]);
                assert(pre_dv.push(line@) + spec_lines(s@.skip(n as int)) =~= pre_dv + spec_lines(
                    rest,
                ));
            } else {
                assert(rest.take(i) =~= s@.subrange(start as int, end as int));
                if line_end < end {
                    assert(rest.take(i).last() == s@[end - 1]);
                    assert(strip_cr(rest.take(i)) =~= s@.subrange(start as int, line_end as int));
                } else {
                    assert(strip_cr(rest.take(i)) =~= s@.subrange(start as int, line_end as int));
                }
                assert(line@ == strip_cr(rest.take(i)));
                assert(s@.skip(end + 1) =~= rest.skip(i + 1));
                assert(spec_lines(rest) == seq![line@] + spec_lines(s@.skip(end + 1)));
                assert(pre_dv.push(line@) + spec_lines(s@.skip(end + 1)) =~= pre_dv + spec_lines(
                    rest,
                ));
            }
        }
        start = if end < n {
            end + 1
        } else {
            n
        };
    }
    proof {
        assert(s@.skip(n as int) =~= Seq::<char>::empty());
        assert(lines.deep_view() + Seq::<Seq<char>>::empty() =~= lines.deep_view());
    }
    lines
}

/// The parts joined with `sep` between consecutive parts.
pub open spec fn spec_join(parts: Seq<Seq<char>>, sep: Seq<char>) -> Seq<char>
    decreases parts.len(),
{
    if parts.len() == 0 {
        Seq::empty()
    } else if parts.len() == 1 {
        parts[0]
    } else {
        spec_join(parts.drop_last(), sep) + sep + parts.last()
    }
}

/// Joins the parts with `sep` between consecutive parts.
pub fn join_strs(parts: &Vec<String>, sep: &str) -> (r: String)
    ensures
        r@ == spec_join(parts.deep_view(), sep@),
{
    let mut r = String::new();
    let mut i: usize = 0;
    while i < parts.len()
        invariant
            i <= parts.len(),
            r@ == spec_join(parts.deep_view().take(i as int), sep@),
        decreases parts.len() - i,
    {
        if i > 0 {
            r.append(sep);
        }
        r.append(parts[i].as_str());
        proof {
            let dv = parts.deep_view();
            assert(dv[i as int] == parts@[i as int]@);
            assert(dv.take(i + 1).drop_last() =~= dv.take(i as int));
            assert(dv.take(i + 1).last() == dv[i as int]);
            if i == 0 {
                assert(r@ =~= spec_join(dv.take(1), sep@));
            }
        }
        i = i + 1;
    }
    proof {
        assert(parts.deep_view().take(parts.len() as int) =~= parts.deep_view());
    }
    r
}

/// Whether `pat` occurs in `s` starting at index `i`.
pub open spec fn match_at(s: Seq<char>, pat: Seq<char>, i: int) -> bool {
    0 <= i && i + pat.len() <= s.len() && s.subrange(i, i + pat.len()) == pat
}

/// The position of the first occurrence of `pat` in `s` at or after `from`.
pub open spec fn spec_find_from(s: Seq<char>, pat: Seq<char>, from: int) -> Option<int>
    decreases s.len() - from + 1,
{
    if from < 0 || from + pat.len() > s.len() {
        None
    } else if match_at(s, pat, from) {
        Some(from)
    } else {
        spec_find_from(s, pat, from + 1)
    }
}

pub proof fn lemma_find_from_some(s: Seq<char>, pat: Seq<char>, from: int, i: int)
    requires
        0 <= from <= i,
        match_at(s, pat, i),
        forall|k: int| from <= k < i ==> !match_at(s, pat, k),
    ensures
        spec_find_from(s, pat, from) == Some(i),
    decreases i - from,
{
    if from < i {
        lemma_find_from_some(s, pat, from + 1, i);
    }
}

pub proof fn lemma_find_from_none(s: Seq<char>, pat: Seq<char>, from: int)
    requires
        0 <= from,
        forall|k: int| from <= k ==> !match_at(s, pat, k),
    ensures
        spec_find_from(s, pat, from) is None,
    decreases s.len() - from + 1,
{
    if from + pat.len() <= s.len() {
        lemma_find_from_none(s, pat, from + 1)
    }
}

/// `s` with the first occurrence of `pat`, if any, replaced by `to`.
pub open spec fn spec_replace_first(s: Seq<char>, pat: Seq<char>, to: Seq<char>) -> Seq<char> {
    match spec_find_from(s, pat, 0) {
        None => s,
        Some(i) => s.take(i) + to + s.skip(i + pat.len()),
    }
}

/// Replaces the first occurrence of `pat` in `s`, if any, with `to`.
pub fn replace_first(s: &str, pat: &str, to: &str) -> (r: String)
    ensures
        r@ == spec_replace_first(s@, pat@, to@),
{
    let n = s.unicode_len();
    let m = pat.unicode_len();
    if m == 0 {
        // the empty pattern matches at the very front
        proof {
            assert(s@.subrange(0, 0) =~= pat@);
            assert(match_at(s@, pat@, 0));
        }
        let mut r = String::new();
        r.append(to);
        r.append(s);
        proof {
            assert(s@.take(0) =~= Seq::<char>::empty());
            assert(s@.skip(0) =~= s@);
            assert(r@ =~= spec_replace_first(s@, pat@, to@));
        }
        return r;
    }
    if m > n {
        proof {
            lemma_find_from_none(s@, pat@, 0);
        }
        let mut r = String::new();
        r.append(s);
        return r;
    }
    let mut i: usize = 0;
    while i <= n - m
        invariant
            n == s@.len(),
            m == pat@.len(),
            1 <= m <= n,
            i <= n - m + 1,
            forall|k: int| 0 <= k < i ==> !match_at(s@, pat@, k),
        decreases n - i,
    {
        // compare pat against s at offset i
        let mut j: usize = 0;
        let mut matches = true;
        while j < m && matches
            invariant
                n == s@.len(),
                m == pat@.len(),
                i + m <= n,
                j <= m,
                matches ==> forall|q: int| 0 <= q < j ==> s@[i + q] == pat@[q],
                !matches ==> !match_at(s@, pat@, i as int),
            decreases m - j + (if matches {
                1int
            } else {
                0int
            }),
        {
            if s.get_char(i + j) != pat.get_char(j) {
                proof {
                    assert(!(s@.subrange(i as int, i + m) == pat@)) by {
                        assert(s@.subrange(i as int, i + m)[j as int] == s@[i + j]);
                    }
                }
                matches = false;
            } else {
                j = j + 1;
            }
        }
        if matches {
            proof {
                assert(s@.subrange(i as int, i + m) =~= pat@);
                lemma_find_from_some(s@, pat@, 0, i as int);
            }
            // build prefix + to + suffix
            let mut r = String::new();
            let mut a: usize = 0;
            while a < i
                invariant
                    n == s@.len(),
                    a <= i <= n,
                    r@ == s@.subrange(0, a as int),
                decreases i - a,
            {
                push_char(&mut r, s.get_char(a));
                proof {
                    assert(s@.subrange(0, a + 1) =~= s@.subrange(0, a as int).push(s@[a as int]));
                }
                a = a + 1;
            }
            r.append(to);
            let mut b = i + m;
            while b < n
                invariant
                    n == s@.len(),
                    i + m <= b <= n,
                    r@ == s@.subrange(0, i as int) + to@ + s@.subrange(i + m, b as int),
                decreases n - b,
            {
                push_char(&mut r, s.get_char(b));
                proof {
                    assert(s@.subrange(i + m, b + 1) =~= s@.subrange(i + m, b as int).push(
                        s@[b as int]));
                }
                b = b + 1;
            }
            proof {
                assert(r@ =~= spec_replace_first(s@, pat@, to@));
            }
            return r;
        }
        i = i + 1;
    }
    proof {
        assert forall|k: int| 0 <= k implies !match_at(s@, pat@, k) by {
            if k + pat@.len() <= s@.len() {
                assert(!match_at(s@, pat@, k));
            }
        }
        lemma_find_from_none(s@, pat@, 0);
    }
    let mut r = String::new();
    r.append(s);
    r
}

} // verus!
