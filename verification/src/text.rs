//! Character-level text utilities: whitespace trimming, searching, line
//! splitting, and conversions between `String` and `Vec<char>`.

use vstd::prelude::*;
use vstd::string::StrSliceExecFns;

verus! {

/// The whitespace characters that trimming removes: space, tab, carriage
/// return and line feed.
pub open spec fn is_space_char(c: char) -> bool {
    c == ' ' || c == '\t' || c == '\r' || c == '\n'
}

/// An ASCII decimal digit.
pub open spec fn is_digit_char(c: char) -> bool {
    48 <= c as u32 && c as u32 <= 57
}

/// The suffix of `s` that remains after removing every leading whitespace
/// character.
pub open spec fn trim_start_s(s: Seq<char>) -> Seq<char>
    decreases s.len(),
{
    if s.len() == 0 {
        s
    } else if is_space_char(s[0]) {
        trim_start_s(s.drop_first())
    } else {
        s
    }
}

/// The prefix of `s` that remains after removing every trailing whitespace
/// character.
pub open spec fn trim_end_s(s: Seq<char>) -> Seq<char>
    decreases s.len(),
{
    if s.len() == 0 {
        s
    } else if is_space_char(s.last()) {
        trim_end_s(s.drop_last())
    } else {
        s
    }
}

/// `s` with both leading and trailing whitespace removed.
pub open spec fn trim_s(s: Seq<char>) -> Seq<char> {
    trim_end_s(trim_start_s(s))
}

/// Index of the first occurrence of `c` in `s` at or after position `i`,
/// or -1 when there is none.
pub open spec fn find_from(s: Seq<char>, c: char, i: int) -> int
    decreases s.len() - i,
{
    if i < 0 || i >= s.len() {
        -1
    } else if s[i] == c {
        i
    } else {
        find_from(s, c, i + 1)
    }
}

/// `s` begins with the characters of `p`.
pub open spec fn starts_with_s(s: Seq<char>, p: Seq<char>) -> bool {
    p.len() <= s.len() && s.take(p.len() as int) == p
}

/// A line with a trailing carriage return loses it; any other line is kept
/// as it is.
pub open spec fn strip_cr(l: Seq<char>) -> Seq<char> {
    if l.len() > 0 && l.last() == '\r' { l.drop_last() } else { l }
}

/// The lines of `s` from position `pos` on: segments split at `'\n'`, each
/// segment stripped of one trailing `'\r'`; a final segment without a
/// terminating newline is kept raw, and a trailing newline yields no empty
/// final line.
pub open spec fn lines_from(s: Seq<char>, pos: int) -> Seq<Seq<char>>
    decreases s.len() - pos,
{
    if pos < 0 || pos >= s.len() {
        Seq::empty()
    } else {
        let j = find_from(s, '\n', pos);
        if j < pos || j >= s.len() {
            seq![s.subrange(pos, s.len() as int)]
        } else {
            seq![strip_cr(s.subrange(pos, j))] + lines_from(s, j + 1)
        }
    }
}

/// All the lines of `s`.
pub open spec fn lines_of(s: Seq<char>) -> Seq<Seq<char>> {
    lines_from(s, 0)
}

/// If nothing in `[i, j)` is `c`, then the first `c` at or after `i` is the
/// one at `j` (or absent when `j` is the end).
pub proof fn lemma_find_from_at(s: Seq<char>, c: char, i: int, j: int)
    requires
        0 <= i <= j <= s.len(),
        forall|k: int| i <= k < j ==> s[k] != c,
        j == s.len() || s[j] == c,
    ensures
        find_from(s, c, i) == if j == s.len() { -1int } else { j },
    decreases j - i,
{
    if i < j {
        lemma_find_from_at(s, c, i + 1, j);
    }
}

/// What the result of `find_from` says about `s`: a found index holds `c`
/// and nothing before it does; -1 means `c` does not occur at all.
pub proof fn lemma_find_from_props(s: Seq<char>, c: char, i: int)
    requires
        0 <= i <= s.len(),
    ensures
        ({
            let r = find_from(s, c, i);
            &&& (r == -1 ==> forall|k: int| i <= k < s.len() ==> s[k] != c)
            &&& (r != -1 ==> i <= r < s.len() && s[r] == c && (forall|k: int|
                i <= k < r ==> s[k] != c))
        }),
    decreases s.len() - i,
{
    if i < s.len() && s[i] != c {
        lemma_find_from_props(s, c, i + 1);
    }
}

/// When the first `i` characters are whitespace and the next one (if any) is
/// not, trimming the start drops exactly those `i` characters.
pub proof fn lemma_trim_start_at(s: Seq<char>, i: int)
    requires
        0 <= i <= s.len(),
        forall|k: int| 0 <= k < i ==> is_space_char(s[k]),
        i == s.len() || !is_space_char(s[i]),
    ensures
        trim_start_s(s) == s.skip(i),
    decreases i,
{
    if i == 0 {
        assert(s.skip(0) =~= s);
    } else {
        lemma_trim_start_at(s.drop_first(), i - 1);
        assert(s.drop_first().skip(i - 1) =~= s.skip(i));
    }
}

/// When everything from position `j` on is whitespace and the character just
/// before `j` (if any) is not, trimming the end keeps exactly the first `j`
/// characters.
pub proof fn lemma_trim_end_at(s: Seq<char>, j: int)
    requires
        0 <= j <= s.len(),
        forall|k: int| j <= k < s.len() ==> is_space_char(s[k]),
        j == 0 || !is_space_char(s[j - 1]),
    ensures
        trim_end_s(s) == s.take(j),
    decreases s.len() - j,
{
    if j == s.len() {
        assert(s.take(j) =~= s);
    } else {
        assert(is_space_char(s.last()));
        lemma_trim_end_at(s.drop_last(), j);
        assert(s.drop_last().take(j) =~= s.take(j));
    }
}

/// Appends one character at the end of the string.
///
/// Relies on `String::push` from std: it appends the given `char` to the end
/// of the `String`.
#[verifier::external_body]
pub fn push_char(s: &mut String, c: char)
    ensures
        final(s)@ == old(s)@.push(c),
{
    s.push(c);
}

/// The characters of `s`, in order, as a vector.
pub fn str_to_chars(s: &str) -> (r: Vec<char>)
    ensures
        r@ == s@,
{
    let n = s.unicode_len();
    let mut r: Vec<char> = Vec::new();
    let mut i: usize = 0;
    while i < n
        invariant
            n == s@.len(),
            i <= n,
            r@ == s@.take(i as int),
        decreases n - i,
    {
        let c = s.get_char(i);
        r.push(c);
        proof {
            assert(r@ =~= s@.take(i + 1));
        }
        i = i + 1;
    }
    proof {
        assert(s@.take(n as int) =~= s@);
    }
    r
}

/// The characters of `v`, in order, as a string.
pub fn chars_to_string(v: &Vec<char>) -> (r: String)
    ensures
        r@ == v@,
{
    let mut r = String::new();
    let mut i: usize = 0;
    while i < v.len()
        invariant
            i <= v.len(),
            r@ == v@.take(i as int),
        decreases v.len() - i,
    {
        push_char(&mut r, v[i]);
        proof {
            assert(r@ =~= v@.take(i + 1));
        }
        i = i + 1;
    }
    proof {
        assert(v@.take(v.len() as int) =~= v@);
    }
    r
}

/// Appends every character of `src` at the end of `dst`.
pub fn append_chars(dst: &mut Vec<char>, src: &Vec<char>)
    ensures
        final(dst)@ == old(dst)@ + src@,
{
    proof {
        assert(dst@ =~= old(dst)@ + src@.take(0));
    }
    let mut k: usize = 0;
    while k < src.len()
        invariant
            k <= src.len(),
            dst@ == old(dst)@ + src@.take(k as int),
        decreases src.len() - k,
    {
        dst.push(src[k]);
        proof {
            assert(dst@ =~= old(dst)@ + src@.take(k + 1));
        }
        k = k + 1;
    }
    proof {
        assert(old(dst)@ + src@.take(src@.len() as int) =~= old(dst)@ + src@);
    }
}

/// A copy of the characters of `v` in positions `[a, b)`.
pub fn sub_chars(v: &Vec<char>, a: usize, b: usize) -> (r: Vec<char>)
    requires
        a <= b <= v.len(),
    ensures
        r@ == v@.subrange(a as int, b as int),
{
    let mut r: Vec<char> = Vec::new();
    let mut i: usize = a;
    while i < b
        invariant
            a <= i <= b <= v.len(),
            r@ == v@.subrange(a as int, i as int),
        decreases b - i,
    {
        r.push(v[i]);
        proof {
            assert(r@ =~= v@.subrange(a as int, i + 1));
        }
        i = i + 1;
    }
    r
}

/// Whether `c` is a whitespace character.
pub fn is_space(c: char) -> (r: bool)
    ensures
        r == is_space_char(c),
{
    c == ' ' || c == '\t' || c == '\r' || c == '\n'
}

/// Whether `c` is an ASCII decimal digit.
pub fn is_digit(c: char) -> (r: bool)
    ensures
        r == is_digit_char(c),
{
    let u = c as u32;
    48 <= u && u <= 57
}

/// `v` without its leading whitespace.
pub fn trim_start_chars(v: &Vec<char>) -> (r: Vec<char>)
    ensures
        r@ == trim_start_s(v@),
{
    let mut i: usize = 0;
    while i < v.len() && is_space(v[i])
        invariant
            i <= v.len(),
            forall|k: int| 0 <= k < i ==> is_space_char(v@[k]),
        decreases v.len() - i,
    {
        i = i + 1;
    }
    proof {
        lemma_trim_start_at(v@, i as int);
    }
    sub_chars(v, i, v.len())
}

/// `v` without leading or trailing whitespace.
pub fn trim_chars(v: &Vec<char>) -> (r: Vec<char>)
    ensures
        r@ == trim_s(v@),
{
    let mut i: usize = 0;
    while i < v.len() && is_space(v[i])
        invariant
            i <= v.len(),
            forall|k: int| 0 <= k < i ==> is_space_char(v@[k]),
        decreases v.len() - i,
    {
        i = i + 1;
    }
    let mut j: usize = v.len();
    while j > i && is_space(v[j - 1])
        invariant
            i <= j <= v.len(),
            i == v.len() || !is_space_char(v@[i as int]),
            forall|k: int| j <= k < v.len() ==> is_space_char(v@[k]),
        decreases j,
    {
        j = j - 1;
    }
    proof {
        lemma_trim_start_at(v@, i as int);
        lemma_trim_end_at(v@.skip(i as int), j - i);
        assert(v@.skip(i as int).take(j - i) =~= v@.subrange(i as int, j as int));
    }
    sub_chars(v, i, j)
}

/// The index of the first occurrence of `c` in `v` at or after `from`.
pub fn find_char(v: &Vec<char>, c: char, from: usize) -> (r: Option<usize>)
    requires
        from <= v.len(),
    ensures
        match r {
            Some(j) => from <= j < v.len() && find_from(v@, c, from as int) == j,
            None => find_from(v@, c, from as int) == -1,
        },
{
    let mut i: usize = from;
    while i < v.len()
        invariant
            from <= i <= v.len(),
            forall|k: int| from <= k < i ==> v@[k] != c,
        decreases v.len() - i,
    {
        if v[i] == c {
            proof {
                lemma_find_from_at(v@, c, from as int, i as int);
            }
            return Some(i);
        }
        i = i + 1;
    }
    proof {
        lemma_find_from_at(v@, c, from as int, v@.len() as int);
    }
    None
}

/// Whether `v` begins with the single character `a`.
pub fn starts1(v: &Vec<char>, a: char) -> (r: bool)
    ensures
        r == starts_with_s(v@, seq![a]),
{
    let r = v.len() >= 1 && v[0] == a;
    proof {
        if r {
            assert(v@.take(1) =~= seq![a]);
        } else {
            if v@.len() >= 1 {
                assert(v@.take(1)[0] == v@[0]);
            }
        }
    }
    r
}

/// Whether `v` begins with the two characters `a`, `b`.
pub fn starts2(v: &Vec<char>, a: char, b: char) -> (r: bool)
    ensures
        r == starts_with_s(v@, seq![a, b]),
{
    let r = v.len() >= 2 && v[0] == a && v[1] == b;
    proof {
        if r {
            assert(v@.take(2) =~= seq![a, b]);
        } else {
            if v@.len() >= 2 {
                assert(v@.take(2)[0] == v@[0]);
                assert(v@.take(2)[1] == v@[1]);
            }
        }
    }
    r
}

/// Whether `v` begins with the three characters `a`, `b`, `c`.
pub fn starts3(v: &Vec<char>, a: char, b: char, c: char) -> (r: bool)
    ensures
        r == starts_with_s(v@, seq![a, b, c]),
{
    let r = v.len() >= 3 && v[0] == a && v[1] == b && v[2] == c;
    proof {
        if r {
            assert(v@.take(3) =~= seq![a, b, c]);
        } else {
            if v@.len() >= 3 {
                assert(v@.take(3)[0] == v@[0]);
                assert(v@.take(3)[1] == v@[1]);
                assert(v@.take(3)[2] == v@[2]);
            }
        }
    }
    r
}

/// The lines of `v`, split as `lines_of` describes.
pub fn split_lines(v: &Vec<char>) -> (r: Vec<Vec<char>>)
    ensures
        r.deep_view() == lines_of(v@),
{
    let mut r: Vec<Vec<char>> = Vec::new();
    let mut pos: usize = 0;
    while pos < v.len()
        invariant
            pos <= v.len(),
            r.deep_view() + lines_from(v@, pos as int) == lines_of(v@),
        decreases v.len() - pos,
    {
        let ghost prev = r.deep_view();
        match find_char(v, '\n', pos) {
            Some(j) => {
                let mut line = sub_chars(v, pos, j);
                if line.len() > 0 && line[line.len() - 1] == '\r' {
                    let ghost full = line@;
                    line.pop();
                    proof {
                        assert(line@ =~= full.drop_last());
                    }
                }
                proof {
                    assert(line@ == strip_cr(v@.subrange(pos as int, j as int)));
                }
                r.push(line);
                proof {
                    assert(r.deep_view() =~~= prev.push(line@));
                    assert(prev.push(line@) + lines_from(v@, j + 1) =~= prev + (seq![
                        strip_cr(v@.subrange(pos as int, j as int)),
                    ] + lines_from(v@, j + 1)));
                }
                pos = j + 1;
            },
            None => {
                let line = sub_chars(v, pos, v.len());
                r.push(line);
                proof {
                    assert(r.deep_view() =~~= prev.push(line@));
                    assert(prev.push(line@) + lines_from(v@, v@.len() as int) =~= prev + seq![
                        v@.subrange(pos as int, v@.len() as int),
                    ]);
                }
                pos = v.len();
            },
        }
    }
    proof {
        assert(r.deep_view() + lines_from(v@, pos as int) =~= r.deep_view());
    }
    r
}

} // verus!
