//! Character-sequence helpers shared by the URL, query and body parsers.
use vstd::prelude::*;

verus! {

broadcast use vstd::string::group_string_axioms;

/// Appends one character to a string (`String::push`).
#[verifier::external_body]
pub(crate) fn push_char(s: &mut String, c: char)
    ensures
        final(s)@ == old(s)@.push(c),
{
    s.push(c);
}

/// Appends `t` to a string (`String::push_str`).
#[verifier::external_body]
pub(crate) fn push_str(s: &mut String, t: &str)
    ensures
        final(s)@ == old(s)@ + t@,
{
    s.push_str(t);
}

/// An owned copy of `s`.
pub fn string_from(s: &str) -> (r: String)
    ensures
        r@ == s@,
{
    s.to_string()
}

/// The characters of `s`, in order.
pub fn chars_of(s: &str) -> (r: Vec<char>)
    ensures
        r@ == s@,
{
    let mut r: Vec<char> = Vec::new();
    let mut chars = s.chars();
    loop
        invariant
            vstd::std_specs::iter::IteratorSpec::obeys_prophetic_iter_laws(&chars),
            r@ + vstd::std_specs::iter::IteratorSpec::remaining(&chars) == s@,
            vstd::std_specs::iter::IteratorSpec::decrease(&chars) is Some,
        ensures
            r@ == s@,
        decreases vstd::std_specs::iter::IteratorSpec::decrease(&chars)->0,
    {
        match chars.next() {
            Some(c) => {
                r.push(c);
                assert(r@ + vstd::std_specs::iter::IteratorSpec::remaining(&chars) =~= s@);
            },
            None => {
                assert(r@ =~= s@);
                break;
            },
        }
    }
    r
}

/// The string made of `cs[lo..hi]`.
pub fn string_of(cs: &Vec<char>, lo: usize, hi: usize) -> (r: String)
    requires
        lo <= hi <= cs.len(),
    ensures
        r@ == cs@.subrange(lo as int, hi as int),
{
    let mut r = String::new();
    let mut i = lo;
    while i < hi
        invariant
            lo <= i <= hi <= cs.len(),
            r@ == cs@.subrange(lo as int, i as int),
        decreases hi - i,
    {
        push_char(&mut r, cs[i]);
        assert(cs@.subrange(lo as int, i + 1) =~= cs@.subrange(lo as int, i as int).push(cs@[i as int]));
        i += 1;
    }
    r
}

} // verus!

verus! {

// ---------------------------------------------------------------------------
// Sequences of characters: searching
// ---------------------------------------------------------------------------

/// `c` occurs somewhere in `s`.
pub open spec fn has_char(s: Seq<char>, c: char) -> bool {
    exists|i: int| 0 <= i < s.len() && s[i] == c
}

/// `i` is the position of the first `c` in `s`.
pub open spec fn is_first_char(s: Seq<char>, c: char, i: int) -> bool {
    &&& 0 <= i < s.len()
    &&& s[i] == c
    &&& forall|j: int| 0 <= j < i ==> s[j] != c
}

/// The position of the first `c` in `s` (meaningful when `has_char(s, c)`).
pub open spec fn first_char(s: Seq<char>, c: char) -> int {
    choose|i: int| is_first_char(s, c, i)
}

/// The position of the first occurrence of a character, found at `i`.
pub proof fn lemma_first_char(s: Seq<char>, c: char, i: int)
    requires
        is_first_char(s, c, i),
    ensures
        first_char(s, c) == i,
        has_char(s, c),
{
    let k = first_char(s, c);
    assert(is_first_char(s, c, k));
    if k < i {
        assert(s[k] != c);
    } else if i < k {
        assert(s[i] != c);
    }
}

/// `p` occurs in `s` starting at position `i`.
pub open spec fn occurs_at(s: Seq<char>, p: Seq<char>, i: int) -> bool {
    0 <= i && i + p.len() <= s.len() && s.subrange(i, i + p.len()) == p
}

/// `p` occurs somewhere in `s`.
pub open spec fn contains_seq(s: Seq<char>, p: Seq<char>) -> bool {
    exists|i: int| #[trigger] occurs_at(s, p, i)
}

/// `i` is the first position at which `p` occurs in `s`.
pub open spec fn is_first_occurrence(s: Seq<char>, p: Seq<char>, i: int) -> bool {
    &&& occurs_at(s, p, i)
    &&& forall|j: int| 0 <= j < i ==> !#[trigger] occurs_at(s, p, j)
}

/// The first position at which `p` occurs in `s` (meaningful when `contains_seq(s, p)`).
pub open spec fn first_occurrence(s: Seq<char>, p: Seq<char>) -> int {
    choose|i: int| is_first_occurrence(s, p, i)
}

/// The position of the first occurrence of a sequence, found at `i`.
pub proof fn lemma_first_occurrence(s: Seq<char>, p: Seq<char>, i: int)
    requires
        is_first_occurrence(s, p, i),
    ensures
        first_occurrence(s, p) == i,
        contains_seq(s, p),
{
    let k = first_occurrence(s, p);
    assert(is_first_occurrence(s, p, k));
    if k < i {
        assert(!occurs_at(s, p, k));
    } else if i < k {
        assert(!occurs_at(s, p, i));
    }
}

/// `s` begins with `p`.
pub open spec fn starts_with(s: Seq<char>, p: Seq<char>) -> bool {
    p.len() <= s.len() && s.take(p.len() as int) == p
}

// ---------------------------------------------------------------------------
// Splitting
// ---------------------------------------------------------------------------

/// The pieces of `s` between the occurrences of `c` (`str::split` with a `char`).
pub open spec fn split_char(s: Seq<char>, c: char) -> Seq<Seq<char>>
    decreases s.len(),
{
    if has_char(s, c) {
        let i = first_char(s, c);
        if 0 <= i < s.len() {
            seq![s.take(i)] + split_char(s.skip(i + 1), c)
        } else {
            seq![s]
        }
    } else {
        seq![s]
    }
}

/// The pieces of `s` between the non-overlapping occurrences of the non-empty `p`,
/// searched from the left (`str::split` with a string pattern).
pub open spec fn split_seq(s: Seq<char>, p: Seq<char>) -> Seq<Seq<char>>
    decreases s.len(),
{
    if p.len() > 0 && contains_seq(s, p) {
        let i = first_occurrence(s, p);
        if 0 <= i && i + p.len() <= s.len() {
            seq![s.take(i)] + split_seq(s.skip(i + p.len()), p)
        } else {
            seq![s]
        }
    } else {
        seq![s]
    }
}

/// Drops a trailing carriage return.
pub open spec fn strip_cr(s: Seq<char>) -> Seq<char> {
    if s.len() > 0 && s.last() == '\r' {
        s.drop_last()
    } else {
        s
    }
}

/// The lines of `s` (`str::lines`): split at `\n`, a `\r` before the `\n` removed,
/// no empty line after a final line ending.
pub open spec fn lines_of(s: Seq<char>) -> Seq<Seq<char>>
    decreases s.len(),
{
    if s.len() == 0 {
        seq![]
    } else if has_char(s, '\n') {
        let i = first_char(s, '\n');
        if 0 <= i < s.len() {
            seq![strip_cr(s.take(i))] + lines_of(s.skip(i + 1))
        } else {
            seq![]
        }
    } else {
        seq![s]
    }
}

/// The views of a sequence of character vectors.
pub open spec fn views(vs: Seq<Vec<char>>) -> Seq<Seq<char>> {
    vs.map_values(|v: Vec<char>| v@)
}

/// The views of character vectors after a push.
pub proof fn lemma_views_push(vs: Seq<Vec<char>>, v: Vec<char>)
    ensures
        views(vs.push(v)) == views(vs).push(v@),
{
    assert(views(vs.push(v)) =~= views(vs).push(v@));
}

// ---------------------------------------------------------------------------
// Trimming
// ---------------------------------------------------------------------------

/// The Unicode `White_Space` property: tab, line feed, vertical tab, form feed,
/// carriage return, space, next line, no-break space, Ogham space mark, the spaces from
/// en quad to hair space, line and paragraph separators, narrow no-break space, medium
/// mathematical space and ideographic space.
pub open spec fn is_whitespace_char(c: char) -> bool {
    let x = c as u32;
    ||| 0x09 <= x && x <= 0x0D
    ||| x == 0x20
    ||| x == 0x85
    ||| x == 0xA0
    ||| x == 0x1680
    ||| 0x2000 <= x && x <= 0x200A
    ||| x == 0x2028
    ||| x == 0x2029
    ||| x == 0x202F
    ||| x == 0x205F
    ||| x == 0x3000
}

/// Whether `c` is white space (the Unicode `White_Space` property, as `char::is_whitespace`
/// decides it).
pub(crate) fn char_is_whitespace(c: char) -> (r: bool)
    ensures
        r == is_whitespace_char(c),
{
    let x = c as u32;
    (0x09 <= x && x <= 0x0D) || x == 0x20 || x == 0x85 || x == 0xA0 || x == 0x1680 || (0x2000 <= x && x
        <= 0x200A) || x == 0x2028 || x == 0x2029 || x == 0x202F || x == 0x205F || x == 0x3000
}

/// The characters that a trim removes: double quotes when `quotes`, else whitespace.
pub open spec fn strippable(quotes: bool, c: char) -> bool {
    if quotes {
        c == '"'
    } else {
        is_whitespace_char(c)
    }
}

/// `s` without its leading strippable characters.
pub open spec fn trim_start_of(s: Seq<char>, quotes: bool) -> Seq<char>
    decreases s.len(),
{
    if s.len() > 0 && strippable(quotes, s[0]) {
        trim_start_of(s.drop_first(), quotes)
    } else {
        s
    }
}

/// `s` without its trailing strippable characters.
pub open spec fn trim_end_of(s: Seq<char>, quotes: bool) -> Seq<char>
    decreases s.len(),
{
    if s.len() > 0 && strippable(quotes, s.last()) {
        trim_end_of(s.drop_last(), quotes)
    } else {
        s
    }
}

/// `str::trim` (whitespace) or `str::trim_matches('"')` (quotes).
pub open spec fn trim_of(s: Seq<char>, quotes: bool) -> Seq<char> {
    trim_end_of(trim_start_of(s, quotes), quotes)
}

/// `str::trim`.
pub open spec fn trimmed(s: Seq<char>) -> Seq<char> {
    trim_of(s, false)
}

/// `s` with every trailing `"\r\n"` removed (`str::trim_end_matches("\r\n")`).
pub open spec fn trim_end_crlf(s: Seq<char>) -> Seq<char>
    decreases s.len(),
{
    if s.len() >= 2 && s[s.len() - 2] == '\r' && s[s.len() - 1] == '\n' {
        trim_end_crlf(s.take(s.len() - 2))
    } else {
        s
    }
}

// ---------------------------------------------------------------------------
// ASCII case and decimal numbers
// ---------------------------------------------------------------------------

/// The code of `c` with ASCII upper case mapped to lower case.
pub open spec fn ascii_fold(c: char) -> u32 {
    let x = c as u32;
    if 65 <= x && x <= 90 {
        (x + 32) as u32
    } else {
        x
    }
}

/// `str::eq_ignore_ascii_case`.
pub open spec fn eq_ignore_ascii_case(a: Seq<char>, b: Seq<char>) -> bool {
    a.len() == b.len() && forall|i: int| 0 <= i < a.len() ==> ascii_fold(a[i]) == ascii_fold(b[i])
}

/// The digit character for `d < 10`.
pub open spec fn digit_char(d: nat) -> char {
    (48 + d) as char
}

/// The decimal representation of `n`.
pub open spec fn decimal(n: nat) -> Seq<char>
    decreases n,
{
    if n < 10 {
        seq![digit_char(n)]
    } else {
        decimal(n / 10).push(digit_char(n % 10))
    }
}

} // verus!

verus! {

// ---------------------------------------------------------------------------
// Executable helpers on character vectors
// ---------------------------------------------------------------------------

/// A copy of `cs[lo..hi]`.
pub fn slice_of(cs: &Vec<char>, lo: usize, hi: usize) -> (r: Vec<char>)
    requires
        lo <= hi <= cs.len(),
    ensures
        r@ == cs@.subrange(lo as int, hi as int),
{
    let mut r: Vec<char> = Vec::new();
    let mut i = lo;
    while i < hi
        invariant
            lo <= i <= hi <= cs.len(),
            r@ == cs@.subrange(lo as int, i as int),
        decreases hi - i,
    {
        r.push(cs[i]);
        assert(cs@.subrange(lo as int, i + 1) =~= cs@.subrange(lo as int, i as int).push(cs@[i as int]));
        i += 1;
    }
    r
}

/// The whole of `cs` as a string.
pub fn to_string(cs: &Vec<char>) -> (r: String)
    ensures
        r@ == cs@,
{
    let r = string_of(cs, 0, cs.len());
    assert(cs@.subrange(0, cs@.len() as int) =~= cs@);
    r
}

/// Whether `a` and `b` hold the same characters.
pub fn same_chars(a: &Vec<char>, b: &Vec<char>) -> (r: bool)
    ensures
        r == (a@ == b@),
{
    if a.len() != b.len() {
        return false;
    }
    let mut i: usize = 0;
    while i < a.len()
        invariant
            a.len() == b.len(),
            i <= a.len(),
            forall|j: int| 0 <= j < i ==> a@[j] == b@[j],
        decreases a.len() - i,
    {
        if a[i] != b[i] {
            return false;
        }
        i += 1;
    }
    assert(a@ =~= b@);
    true
}

/// The position of the first `c` in `cs`.
pub fn find_char(cs: &Vec<char>, c: char) -> (r: Option<usize>)
    ensures
        r matches Some(k) ==> is_first_char(cs@, c, k as int),
        r is None ==> !has_char(cs@, c),
{
    let mut i: usize = 0;
    while i < cs.len()
        invariant
            i <= cs.len(),
            forall|j: int| 0 <= j < i ==> cs@[j] != c,
        decreases cs.len() - i,
    {
        if cs[i] == c {
            return Some(i);
        }
        i += 1;
    }
    None
}

/// Whether `p` occurs in `cs` at position `k`.
pub fn occurs_here(cs: &Vec<char>, p: &Vec<char>, k: usize) -> (r: bool)
    ensures
        r == occurs_at(cs@, p@, k as int),
{
    if k > cs.len() || p.len() > cs.len() - k {
        return false;
    }
    let mut j: usize = 0;
    while j < p.len()
        invariant
            k + p.len() <= cs.len(),
            j <= p.len(),
            forall|t: int| 0 <= t < j ==> cs@[k + t] == p@[t],
        decreases p.len() - j,
    {
        if cs[k + j] != p[j] {
            assert(cs@.subrange(k as int, k + p.len())[j as int] != p@[j as int]);
            return false;
        }
        j += 1;
    }
    assert(cs@.subrange(k as int, k + p.len()) =~= p@);
    true
}

/// The first position at which `p` occurs in `cs`.
pub fn find_seq(cs: &Vec<char>, p: &Vec<char>) -> (r: Option<usize>)
    ensures
        r matches Some(k) ==> is_first_occurrence(cs@, p@, k as int),
        r is None ==> !contains_seq(cs@, p@),
{
    let mut k: usize = 0;
    while k < cs.len()
        invariant
            k <= cs.len(),
            forall|j: int| 0 <= j < k ==> !#[trigger] occurs_at(cs@, p@, j),
        decreases cs.len() - k,
    {
        if occurs_here(cs, p, k) {
            return Some(k);
        }
        k += 1;
    }
    if occurs_here(cs, p, k) {
        return Some(k);
    }
    assert forall|j: int| !#[trigger] occurs_at(cs@, p@, j) by {
        if 0 <= j && j + p@.len() <= cs@.len() {
            assert(j <= k);
        }
    }
    None
}

/// Whether `p` occurs in `cs`.
pub fn contains(cs: &Vec<char>, p: &Vec<char>) -> (r: bool)
    ensures
        r == contains_seq(cs@, p@),
{
    match find_seq(cs, p) {
        Some(k) => {
            proof {
                lemma_first_occurrence(cs@, p@, k as int);
            }
            true
        },
        None => false,
    }
}

/// Whether `cs` begins with `p`.
pub fn begins_with(cs: &Vec<char>, p: &Vec<char>) -> (r: bool)
    ensures
        r == starts_with(cs@, p@),
{
    let r = occurs_here(cs, p, 0);
    proof {
        if p@.len() <= cs@.len() {
            assert(cs@.subrange(0, p@.len() as int) =~= cs@.take(p@.len() as int));
        }
    }
    r
}

/// The pieces of `cs` between the occurrences of `c`.
pub fn split_on_char(cs: &Vec<char>, c: char) -> (r: Vec<Vec<char>>)
    ensures
        views(r@) == split_char(cs@, c),
{
    let mut pieces: Vec<Vec<char>> = Vec::new();
    let mut rest = slice_of(cs, 0, cs.len());
    assert(rest@ =~= cs@);
    loop
        invariant_except_break
            split_char(cs@, c) == views(pieces@) + split_char(rest@, c),
        ensures
            views(pieces@) == split_char(cs@, c),
        decreases rest@.len(),
    {
        match find_char(&rest, c) {
            Some(k) => {
                let piece = slice_of(&rest, 0, k);
                let next = slice_of(&rest, k + 1, rest.len());
                proof {
                    lemma_first_char(rest@, c, k as int);
                    assert(rest@.take(k as int) =~= piece@);
                    assert(rest@.skip(k + 1) =~= next@);
                    assert(split_char(rest@, c) == seq![piece@] + split_char(next@, c));
                    lemma_views_push(pieces@, piece);
                    assert(views(pieces@) + split_char(rest@, c) =~= views(pieces@.push(piece)) + split_char(next@, c));
                }
                pieces.push(piece);
                rest = next;
            },
            None => {
                proof {
                    lemma_views_push(pieces@, rest);
                    assert(views(pieces@) + split_char(rest@, c) =~= views(pieces@.push(rest)));
                }
                pieces.push(rest);
                break;
            },
        }
    }
    pieces
}

/// The pieces of `cs` between the non-overlapping occurrences of the non-empty `p`.
pub fn split_on_seq(cs: &Vec<char>, p: &Vec<char>) -> (r: Vec<Vec<char>>)
    requires
        p@.len() > 0,
    ensures
        views(r@) == split_seq(cs@, p@),
{
    let mut pieces: Vec<Vec<char>> = Vec::new();
    let mut rest = slice_of(cs, 0, cs.len());
    assert(rest@ =~= cs@);
    loop
        invariant_except_break
            split_seq(cs@, p@) == views(pieces@) + split_seq(rest@, p@),
        invariant
            p@.len() > 0,
        ensures
            views(pieces@) == split_seq(cs@, p@),
        decreases rest@.len(),
    {
        match find_seq(&rest, p) {
            Some(k) => {
                let piece = slice_of(&rest, 0, k);
                assert(occurs_at(rest@, p@, k as int));
                assert(k + p@.len() <= rest@.len());
                assert(k + p.len() <= rest.len());
                let next = slice_of(&rest, k + p.len(), rest.len());
                proof {
                    lemma_first_occurrence(rest@, p@, k as int);
                    assert(rest@.take(k as int) =~= piece@);
                    assert(rest@.skip(k + p@.len()) =~= next@);
                    assert(split_seq(rest@, p@) == seq![piece@] + split_seq(next@, p@));
                    lemma_views_push(pieces@, piece);
                    assert(views(pieces@) + split_seq(rest@, p@) =~= views(pieces@.push(piece)) + split_seq(next@, p@));
                }
                pieces.push(piece);
                rest = next;
            },
            None => {
                proof {
                    lemma_views_push(pieces@, rest);
                    assert(views(pieces@) + split_seq(rest@, p@) =~= views(pieces@.push(rest)));
                }
                pieces.push(rest);
                break;
            },
        }
    }
    pieces
}

/// Whether `c` is removed by a trim of the given kind.
pub fn is_strippable(quotes: bool, c: char) -> (r: bool)
    ensures
        r == strippable(quotes, c),
{
    if quotes {
        c == '"'
    } else {
        char_is_whitespace(c)
    }
}

/// `cs` without leading and trailing strippable characters.
pub fn trim_chars(cs: &Vec<char>, quotes: bool) -> (r: Vec<char>)
    ensures
        r@ == trim_of(cs@, quotes),
{
    let mut lo: usize = 0;
    assert(cs@.skip(0) =~= cs@);
    while lo < cs.len() && is_strippable(quotes, cs[lo])
        invariant
            lo <= cs.len(),
            trim_start_of(cs@, quotes) == trim_start_of(cs@.skip(lo as int), quotes),
        decreases cs.len() - lo,
    {
        assert(cs@.skip(lo as int).drop_first() =~= cs@.skip(lo + 1));
        lo += 1;
    }
    let mut hi: usize = cs.len();
    let ghost start = cs@.skip(lo as int);
    assert(start.take(start.len() as int) =~= start);
    while hi > lo && is_strippable(quotes, cs[hi - 1])
        invariant
            lo <= hi <= cs.len(),
            start == cs@.skip(lo as int),
            trim_end_of(start, quotes) == trim_end_of(cs@.subrange(lo as int, hi as int), quotes),
        decreases hi - lo,
    {
        assert(cs@.subrange(lo as int, hi as int).drop_last() =~= cs@.subrange(lo as int, hi - 1));
        hi -= 1;
    }
    slice_of(cs, lo, hi)
}

/// `str::trim`.
pub fn trim(cs: &Vec<char>) -> (r: Vec<char>)
    ensures
        r@ == trimmed(cs@),
{
    trim_chars(cs, false)
}

/// `cs` with every trailing `"\r\n"` removed.
pub fn trim_crlf_end(cs: &Vec<char>) -> (r: Vec<char>)
    ensures
        r@ == trim_end_crlf(cs@),
{
    let mut hi: usize = cs.len();
    assert(cs@.take(hi as int) =~= cs@);
    while hi >= 2 && cs[hi - 2] == '\r' && cs[hi - 1] == '\n'
        invariant
            hi <= cs.len(),
            trim_end_crlf(cs@) == trim_end_crlf(cs@.take(hi as int)),
        decreases hi,
    {
        proof {
            let t = cs@.take(hi as int);
            assert(t[t.len() - 2] == '\r' && t[t.len() - 1] == '\n');
            assert(t.take(t.len() - 2) =~= cs@.take(hi - 2));
            assert(trim_end_crlf(t) == trim_end_crlf(t.take(t.len() - 2)));
        }
        hi -= 2;
    }
    proof {
        let t = cs@.take(hi as int);
        assert(!(t.len() >= 2 && t[t.len() - 2] == '\r' && t[t.len() - 1] == '\n'));
        assert(trim_end_crlf(t) == t);
    }
    let r = slice_of(cs, 0, hi);
    assert(r@ =~= cs@.take(hi as int));
    r
}

/// The lines of `cs` (`str::lines`).
pub fn lines(cs: &Vec<char>) -> (r: Vec<Vec<char>>)
    ensures
        views(r@) == lines_of(cs@),
{
    let mut out: Vec<Vec<char>> = Vec::new();
    let mut rest = slice_of(cs, 0, cs.len());
    assert(rest@ =~= cs@);
    loop
        invariant_except_break
            lines_of(cs@) == views(out@) + lines_of(rest@),
        ensures
            views(out@) == lines_of(cs@),
        decreases rest@.len(),
    {
        if rest.len() == 0 {
            assert(views(out@) + lines_of(rest@) =~= views(out@));
            break;
        }
        match find_char(&rest, '\n') {
            Some(k) => {
                let mut line = slice_of(&rest, 0, k);
                if k > 0 && rest[k - 1] == '\r' {
                    line = slice_of(&rest, 0, k - 1);
                }
                let next = slice_of(&rest, k + 1, rest.len());
                proof {
                    lemma_first_char(rest@, '\n', k as int);
                    assert(strip_cr(rest@.take(k as int)) =~= line@);
                    assert(rest@.skip(k + 1) =~= next@);
                    assert(lines_of(rest@) == seq![line@] + lines_of(next@));
                    lemma_views_push(out@, line);
                    assert(views(out@) + lines_of(rest@) =~= views(out@.push(line)) + lines_of(next@));
                }
                out.push(line);
                rest = next;
            },
            None => {
                proof {
                    lemma_views_push(out@, rest);
                    assert(views(out@) + lines_of(rest@) =~= views(out@.push(rest)));
                }
                out.push(rest);
                break;
            },
        }
    }
    out
}

/// Whether `a` and `b` agree up to ASCII case (`str::eq_ignore_ascii_case`).
pub fn same_ignoring_ascii_case(a: &Vec<char>, b: &Vec<char>) -> (r: bool)
    ensures
        r == eq_ignore_ascii_case(a@, b@),
{
    if a.len() != b.len() {
        return false;
    }
    let mut i: usize = 0;
    while i < a.len()
        invariant
            a.len() == b.len(),
            i <= a.len(),
            forall|j: int| 0 <= j < i ==> ascii_fold(a@[j]) == ascii_fold(b@[j]),
        decreases a.len() - i,
    {
        let x = a[i] as u32;
        let y = b[i] as u32;
        let fx = if 65 <= x && x <= 90 { x + 32 } else { x };
        let fy = if 65 <= y && y <= 90 { y + 32 } else { y };
        if fx != fy {
            return false;
        }
        i += 1;
    }
    true
}

/// The decimal representation of `n`.
pub fn decimal_string(n: u64) -> (r: String)
    ensures
        r@ == decimal(n as nat),
    decreases n,
{
    if n < 10 {
        let mut r = String::new();
        push_char(&mut r, ((n as u8) + 48) as char);
        assert(r@ =~= decimal(n as nat));
        r
    } else {
        let mut r = decimal_string(n / 10);
        push_char(&mut r, (((n % 10) as u8) + 48) as char);
        r
    }
}

} // verus!
