//! Whitespace, tokens and line pieces of text, as `str` gives them.
use vstd::prelude::*;

verus! {

broadcast use vstd::string::group_string_axioms;

/// Unicode's `White_Space` property, which `char::is_whitespace` tests.
pub open spec fn is_ws(c: char) -> bool {
    ||| c == ' '
    ||| ('\u{9}' <= c && c <= '\u{d}')
    ||| c == '\u{85}'
    ||| c == '\u{a0}'
    ||| c == '\u{1680}'
    ||| ('\u{2000}' <= c && c <= '\u{200a}')
    ||| c == '\u{2028}'
    ||| c == '\u{2029}'
    ||| c == '\u{202f}'
    ||| c == '\u{205f}'
    ||| c == '\u{3000}'
}

/// The maximal runs of non-whitespace characters of `s`, in order: what
/// `str::split_whitespace` yields.
pub open spec fn ws_tokens(s: Seq<char>) -> Seq<Seq<char>>
    decreases s.len(),
{
    if s.len() == 0 {
        seq![]
    } else {
        let prev = ws_tokens(s.drop_last());
        let c = s.last();
        if is_ws(c) {
            prev
        } else if s.len() >= 2 && !is_ws(s[s.len() - 2]) {
            prev.update(prev.len() - 1, prev.last().push(c))
        } else {
            prev.push(seq![c])
        }
    }
}

/// The pieces of `s` between `'\n'` characters, the empty ones included.
pub open spec fn line_pieces(s: Seq<char>) -> Seq<Seq<char>>
    decreases s.len(),
{
    if s.len() == 0 {
        seq![seq![]]
    } else {
        let prev = line_pieces(s.drop_last());
        if s.last() == '\n' {
            prev.push(seq![])
        } else {
            prev.update(prev.len() - 1, prev.last().push(s.last()))
        }
    }
}

/// A word: a non-empty run of characters none of which is whitespace.
pub open spec fn is_word(t: Seq<char>) -> bool {
    t.len() > 0 && forall|i: int| 0 <= i < t.len() ==> !is_ws(#[trigger] t[i])
}

/// The views of a sequence of character vectors.
pub open spec fn char_views(v: Seq<Vec<char>>) -> Seq<Seq<char>> {
    v.map_values(|t: Vec<char>| t@)
}

/// The views of a sequence of strings.
pub open spec fn string_views(v: Seq<String>) -> Seq<Seq<char>> {
    v.map_values(|t: String| t@)
}

/// Whether `c` is whitespace (`char::is_whitespace`).
pub fn is_whitespace(c: char) -> (r: bool)
    ensures
        r == is_ws(c),
{
    c == ' ' || ('\u{9}' <= c && c <= '\u{d}') || c == '\u{85}' || c == '\u{a0}' || c
        == '\u{1680}' || ('\u{2000}' <= c && c <= '\u{200a}') || c == '\u{2028}' || c
        == '\u{2029}' || c == '\u{202f}' || c == '\u{205f}' || c == '\u{3000}'
}

/// The characters of `s`, in order.
pub fn chars_of(s: &str) -> (chars: Vec<char>)
    ensures
        chars@ == s@,
{
    let mut chars: Vec<char> = Vec::new();
    for c in it: s.chars()
        invariant
            chars@ == it.seq().take(it.index() as int),
    {
        chars.push(c);
    }
    chars
}

/// `String::from_iter` over the characters: a string holding exactly them.
#[verifier::external_body]
pub(crate) fn string_from_chars(chars: &Vec<char>) -> (s: String)
    ensures
        s@ == chars@,
{
    chars.iter().collect()
}

/// The whitespace-separated tokens of `chars`.
pub fn split_tokens(chars: &Vec<char>) -> (tokens: Vec<Vec<char>>)
    ensures
        char_views(tokens@) == ws_tokens(chars@),
{
    let mut tokens: Vec<Vec<char>> = Vec::new();
    let mut cur: Vec<char> = Vec::new();
    let n = chars.len();
    let mut i: usize = 0;
    while i < n
        invariant
            n == chars@.len(),
            0 <= i <= n,
            cur@.len() == 0 ==> char_views(tokens@) == ws_tokens(chars@.take(i as int)),
            cur@.len() > 0 ==> char_views(tokens@).push(cur@) == ws_tokens(
                chars@.take(i as int),
            ),
            cur@.len() > 0 <==> (i > 0 && !is_ws(chars@[i - 1])),
        decreases n - i,
    {
        let c = chars[i];
        let ghost prefix = chars@.take(i as int);
        assert(chars@.take(i + 1).drop_last() =~= prefix);
        assert(chars@.take(i + 1).last() == c);
        if is_whitespace(c) {
            if cur.len() > 0 {
                let ghost old_tokens = tokens@;
                tokens.push(cur);
                assert(char_views(tokens@) =~= char_views(old_tokens).push(cur@));
                cur = Vec::new();
            }
        } else {
            let ghost old_cur = cur@;
            cur.push(c);
            if cur.len() > 1 {
                assert(chars@.take(i + 1)[i - 1] == chars@[i - 1]);
                assert(char_views(tokens@).push(cur@) =~= char_views(tokens@).push(old_cur).update(
                    char_views(tokens@).len() as int,
                    old_cur.push(c),
                ));
            } else {
                if i > 0 {
                    assert(chars@.take(i + 1)[i - 1] == chars@[i - 1]);
                }
                assert(cur@ =~= seq![c]);
                assert(ws_tokens(chars@.take(i + 1)) == ws_tokens(prefix).push(seq![c]));
            }
        }
        i = i + 1;
    }
    assert(chars@.take(n as int) =~= chars@);
    if cur.len() > 0 {
        let ghost old_tokens = tokens@;
        tokens.push(cur);
        assert(char_views(tokens@) =~= char_views(old_tokens).push(cur@));
    }
    tokens
}

/// The whitespace-separated tokens of `s` (`str::split_whitespace`).
pub fn split_whitespace(s: &str) -> (tokens: Vec<String>)
    ensures
        string_views(tokens@) == ws_tokens(s@),
{
    let chars = chars_of(s);
    let parts = split_tokens(&chars);
    let mut tokens: Vec<String> = Vec::new();
    let mut i: usize = 0;
    while i < parts.len()
        invariant
            0 <= i <= parts@.len(),
            string_views(tokens@) == char_views(parts@).take(i as int),
        decreases parts@.len() - i,
    {
        let ghost old_tokens = tokens@;
        let t = string_from_chars(&parts[i]);
        tokens.push(t);
        assert(string_views(tokens@) =~= string_views(old_tokens).push(t@));
        assert(char_views(parts@).take(i + 1) =~= char_views(parts@).take(i as int).push(
            parts@[i as int]@,
        ));
        i = i + 1;
    }
    assert(char_views(parts@).take(parts@.len() as int) =~= char_views(parts@));
    tokens
}

} // verus!
