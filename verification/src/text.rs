//! String primitives that the statement language is built on.
//!
//! The three functions at the end of this file call into the standard library;
//! their contracts are taken on trust and everything else is proved from them.

use vstd::prelude::*;

verus! {

/// The words of `s`: its maximal runs of non-whitespace characters, in order.
/// This is what `str::split_whitespace` yields; Unicode's definition of
/// whitespace is a table, so the result is named rather than spelled out.
pub uninterp spec fn whitespace_split(s: Seq<char>) -> Seq<Seq<char>>;

/// The upper-case form of `s` under Unicode's case mapping, as
/// `str::to_uppercase` computes it.
pub uninterp spec fn uppercase(s: Seq<char>) -> Seq<char>;

/// The views of a sequence of strings.
pub open spec fn views(v: Seq<String>) -> Seq<Seq<char>> {
    v.map_values(|s: String| s@)
}

/// The characters that surround and separate the items of a bracketed list.
pub open spec fn is_list_delimiter_spec(c: char) -> bool {
    c == '(' || c == ',' || c == ')'
}

/// True for `(`, `,` and `)`.
#[verifier::when_used_as_spec(is_list_delimiter_spec)]
pub fn is_list_delimiter(c: char) -> (r: bool)
    ensures
        r == is_list_delimiter_spec(c),
{
    c == '(' || c == ',' || c == ')'
}

/// `s` without its leading list delimiters.
pub open spec fn trim_front(s: Seq<char>) -> Seq<char>
    decreases s.len(),
{
    if s.len() > 0 && is_list_delimiter_spec(s[0]) {
        trim_front(s.subrange(1, s.len() as int))
    } else {
        s
    }
}

/// `s` without its trailing list delimiters.
pub open spec fn trim_back(s: Seq<char>) -> Seq<char>
    decreases s.len(),
{
    if s.len() > 0 && is_list_delimiter_spec(s[s.len() - 1]) {
        trim_back(s.subrange(0, s.len() - 1))
    } else {
        s
    }
}

/// `s` without list delimiters at either end; those inside stay.
pub open spec fn trim_delimiters(s: Seq<char>) -> Seq<char> {
    trim_back(trim_front(s))
}

/// Strict lexicographic order on strings, character by character by code
/// point; a proper prefix comes first.
pub open spec fn lex_lt(a: Seq<char>, b: Seq<char>) -> bool
    decreases a.len(),
{
    if b.len() == 0 {
        false
    } else if a.len() == 0 {
        true
    } else if a[0] != b[0] {
        (a[0] as u32) < (b[0] as u32)
    } else {
        lex_lt(a.subrange(1, a.len() as int), b.subrange(1, b.len() as int))
    }
}

/// The position of the first comma of `s`, or its length where it has none.
pub open spec fn first_comma(s: Seq<char>) -> int
    decreases s.len(),
{
    if s.len() == 0 || s[0] == ',' {
        0
    } else {
        1 + first_comma(s.subrange(1, s.len() as int))
    }
}

/// The pieces of `s` between its commas, empty pieces included: a string
/// with n commas has n + 1 pieces.
pub open spec fn split_commas(s: Seq<char>) -> Seq<Seq<char>>
    decreases s.len(),
{
    let k = first_comma(s);
    if 0 <= k < s.len() {
        seq![s.subrange(0, k)] + split_commas(s.subrange(k + 1, s.len() as int))
    } else {
        seq![s]
    }
}

/// The items that one word of a bracketed list contributes: the word loses
/// the delimiters at its two ends, and what is left is cut at its commas.
/// `(a,` gives `a`, and `(a,b)` gives `a` and `b`.
pub open spec fn list_items_spec(word: Seq<char>) -> Seq<Seq<char>> {
    split_commas(trim_delimiters(word))
}

/// The first comma lies within the string and nothing before it is a comma.
pub proof fn lemma_first_comma(s: Seq<char>)
    ensures
        0 <= first_comma(s) <= s.len(),
        first_comma(s) < s.len() ==> s[first_comma(s)] == ',',
        forall|j: int| 0 <= j < first_comma(s) ==> s[j] != ',',
    decreases s.len(),
{
    if s.len() > 0 && s[0] != ',' {
        let rest = s.subrange(1, s.len() as int);
        lemma_first_comma(rest);
        assert forall|j: int| 0 <= j < first_comma(s) implies s[j] != ',' by {
            if j > 0 {
                assert(rest[j - 1] == s[j]);
            }
        }
    }
}

/// A position with a comma, or the end, before which there is no comma is
/// the first comma.
pub proof fn lemma_first_comma_is(s: Seq<char>, k: int)
    requires
        0 <= k <= s.len(),
        k < s.len() ==> s[k] == ',',
        forall|j: int| 0 <= j < k ==> s[j] != ',',
    ensures
        first_comma(s) == k,
{
    lemma_first_comma(s);
}

/// Past `lo` leading delimiters that end at a non-delimiter or at the end,
/// trimming the front leaves what starts at `lo`.
pub proof fn lemma_trim_front(s: Seq<char>, lo: int)
    requires
        0 <= lo <= s.len(),
        forall|j: int| 0 <= j < lo ==> is_list_delimiter_spec(#[trigger] s[j]),
        lo < s.len() ==> !is_list_delimiter_spec(s[lo]),
    ensures
        trim_front(s) == s.subrange(lo, s.len() as int),
    decreases lo,
{
    if lo > 0 {
        lemma_trim_front(s.subrange(1, s.len() as int), lo - 1);
    }
}

/// Before trailing delimiters that start at `hi`, after a non-delimiter or
/// the start, trimming the back leaves what ends at `hi`.
pub proof fn lemma_trim_back(s: Seq<char>, hi: int)
    requires
        0 <= hi <= s.len(),
        forall|j: int| hi <= j < s.len() ==> is_list_delimiter_spec(#[trigger] s[j]),
        hi > 0 ==> !is_list_delimiter_spec(s[hi - 1]),
    ensures
        trim_back(s) == s.subrange(0, hi),
    decreases s.len() - hi,
{
    if hi < s.len() {
        lemma_trim_back(s.subrange(0, s.len() - 1), hi);
    }
}

/// The items that one word of a bracketed list contributes.
pub fn list_items(word: &str) -> (r: Vec<String>)
    ensures
        views(r@) == list_items_spec(word@),
{
    let cs = to_chars(word);
    let mut lo: usize = 0;
    while lo < cs.len() && is_list_delimiter(cs[lo])
        invariant
            lo <= cs@.len(),
            forall|j: int| 0 <= j < lo ==> is_list_delimiter_spec(#[trigger] cs@[j]),
        decreases cs@.len() - lo,
    {
        lo += 1;
    }
    let mut hi: usize = cs.len();
    while hi > lo && is_list_delimiter(cs[hi - 1])
        invariant
            lo <= hi <= cs@.len(),
            forall|j: int| hi <= j < cs@.len() ==> is_list_delimiter_spec(#[trigger] cs@[j]),
        decreases hi,
    {
        hi -= 1;
    }
    let ghost body = cs@.subrange(lo as int, hi as int);
    proof {
        let front = cs@.subrange(lo as int, cs@.len() as int);
        lemma_trim_front(cs@, lo as int);
        lemma_trim_back(front, hi - lo);
        assert(front.subrange(0, hi - lo) =~= body);
    }
    let mut out: Vec<String> = Vec::new();
    let mut piece: Vec<char> = Vec::new();
    let mut start: usize = lo;
    let mut i: usize = lo;
    while i < hi
        invariant
            lo <= start <= i <= hi <= cs@.len(),
            body == cs@.subrange(lo as int, hi as int),
            piece@ == cs@.subrange(start as int, i as int),
            forall|j: int| start <= j < i ==> cs@[j] != ',',
            views(out@) + split_commas(cs@.subrange(start as int, hi as int)) == split_commas(body),
        decreases hi - i,
    {
        let c = cs[i];
        if c == ',' {
            let ghost rest = cs@.subrange(start as int, hi as int);
            let ghost before = out@;
            out.push(from_chars(&piece));
            proof {
                lemma_first_comma_is(rest, i - start);
                assert(rest.subrange(0, i - start) =~= piece@);
                assert(rest.subrange(i - start + 1, rest.len() as int) =~= cs@.subrange(
                    i + 1,
                    hi as int,
                ));
                assert(views(out@) + split_commas(cs@.subrange(i + 1, hi as int)) =~= views(before)
                    + split_commas(rest));
            }
            piece = Vec::new();
            start = i + 1;
        } else {
            piece.push(c);
        }
        i += 1;
    }
    let ghost rest = cs@.subrange(start as int, hi as int);
    out.push(from_chars(&piece));
    proof {
        lemma_first_comma_is(rest, rest.len() as int);
    }
    out
}

/// The characters of `s`, in order.
pub fn to_chars(s: &str) -> (r: Vec<char>)
    ensures
        r@ == s@,
{
    broadcast use vstd::string::group_string_axioms;

    let mut out: Vec<char> = Vec::new();
    for c in it: s.chars()
        invariant
            it.seq() == s@,
            out@ == s@.take(it.index() as int),
    {
        out.push(c);
        assert(out@ =~= s@.take(it.index() + 1));
    }
    assert(out@ =~= s@);
    out
}

/// An owned copy of a string slice.
pub fn own(s: &str) -> (r: String)
    ensures
        r@ == s@,
{
    s.to_owned()
}

/// Whether two string slices hold the same characters.
pub fn str_eq(a: &str, b: &str) -> (r: bool)
    ensures
        r == (a@ == b@),
{
    own(a) == own(b)
}

/// Whether `a` comes before `b` in the order of strings: character by
/// character by code point, a proper prefix first.
pub fn str_lt(a: &str, b: &str) -> (r: bool)
    ensures
        r == lex_lt(a@, b@),
{
    let x = to_chars(a);
    let y = to_chars(b);
    let mut i: usize = 0;
    assert(x@.skip(0) =~= a@ && y@.skip(0) =~= b@);
    while i < x.len() && i < y.len()
        invariant
            i <= x@.len(),
            i <= y@.len(),
            lex_lt(a@, b@) == lex_lt(x@.skip(i as int), y@.skip(i as int)),
        decreases x@.len() - i,
    {
        let ghost rest_x = x@.skip(i as int);
        let ghost rest_y = y@.skip(i as int);
        assert(rest_x[0] == x@[i as int] && rest_y[0] == y@[i as int]);
        if x[i] != y[i] {
            return (x[i] as u32) < (y[i] as u32);
        }
        assert(rest_x.subrange(1, rest_x.len() as int) =~= x@.skip(i + 1));
        assert(rest_y.subrange(1, rest_y.len() as int) =~= y@.skip(i + 1));
        i += 1;
    }
    i < y.len()
}

/// Calls `str::split_whitespace` and collects the words as owned strings.
/// Trusted: the words are those that the standard library yields, in order.
#[verifier::external_body]
pub(crate) fn split_words(s: &str) -> (r: Vec<String>)
    ensures
        views(r@) == whitespace_split(s@),
{
    s.split_whitespace().map(|w| w.to_string()).collect()
}

/// Calls `str::to_uppercase`.
/// Trusted: the result is the standard library's upper-case form of `s`.
#[verifier::external_body]
pub(crate) fn to_upper(s: &str) -> (r: String)
    ensures
        r@ == uppercase(s@),
{
    s.to_uppercase()
}

/// Calls `String::from_iter` on the characters of `v`.
/// Trusted: the string holds exactly those characters, in order.
#[verifier::external_body]
pub(crate) fn from_chars(v: &Vec<char>) -> (r: String)
    ensures
        r@ == v@,
{
    String::from_iter(v.iter())
}

} // verus!
