use vstd::prelude::*;

verus! {

/// The whitespace characters that separate tokens on a policy line: the
/// Unicode `White_Space` set.
pub open spec fn is_ws(c: char) -> bool {
    ('\u{9}' <= c && c <= '\u{D}') || c == ' ' || c == '\u{85}' || c == '\u{A0}' || c
        == '\u{1680}' || ('\u{2000}' <= c && c <= '\u{200A}') || c == '\u{2028}' || c
        == '\u{2029}' || c == '\u{202F}' || c == '\u{205F}' || c == '\u{3000}'
}

/// End (exclusive) of the token that starts at `i`.
pub open spec fn token_end(s: Seq<char>, i: int) -> int
    decreases s.len() - i,
{
    if i < 0 || i >= s.len() || is_ws(s[i]) {
        i
    } else {
        token_end(s, i + 1)
    }
}

/// The whitespace-separated tokens of `s` from position `i` on.
pub open spec fn tokens_from(s: Seq<char>, i: int) -> Seq<Seq<char>>
    decreases s.len() - i,
    via tokens_from_decreases
{
    if i < 0 || i >= s.len() {
        Seq::empty()
    } else if is_ws(s[i]) {
        tokens_from(s, i + 1)
    } else {
        seq![s.subrange(i, token_end(s, i))] + tokens_from(s, token_end(s, i))
    }
}

#[via_fn]
proof fn tokens_from_decreases(s: Seq<char>, i: int) {
    if 0 <= i < s.len() && !is_ws(s[i]) {
        lemma_token_end_bounds(s, i);
    }
}

pub open spec fn tokens(s: Seq<char>) -> Seq<Seq<char>> {
    tokens_from(s, 0)
}

proof fn lemma_token_end_bounds(s: Seq<char>, i: int)
    requires
        0 <= i <= s.len(),
    ensures
        i <= token_end(s, i) <= s.len(),
        i < s.len() && !is_ws(s[i]) ==> token_end(s, i) > i,
    decreases s.len() - i,
{
    if i < s.len() && !is_ws(s[i]) {
        lemma_token_end_bounds(s, i + 1);
    }
}

fn is_ws_exec(c: char) -> (r: bool)
    ensures
        r == is_ws(c),
{
    ('\u{9}' <= c && c <= '\u{D}') || c == ' ' || c == '\u{85}' || c == '\u{A0}' || c
        == '\u{1680}' || ('\u{2000}' <= c && c <= '\u{200A}') || c == '\u{2028}' || c
        == '\u{2029}' || c == '\u{202F}' || c == '\u{205F}' || c == '\u{3000}'
}

/// Splits `s` into its whitespace-separated tokens.
pub fn split_tokens(s: &str) -> (r: Vec<String>)
    ensures
        r@.len() == tokens(s@).len(),
        forall|k: int| 0 <= k < r@.len() ==> (#[trigger] r@[k])@ == tokens(s@)[k],
{
    let n = s.unicode_len();
    let mut out: Vec<String> = Vec::new();
    let mut i: usize = 0;
    while i < n
        invariant
            n == s@.len(),
            i <= n,
            out@.len() + tokens_from(s@, i as int).len() == tokens(s@).len(),
            forall|k: int| 0 <= k < out@.len() ==> (#[trigger] out@[k])@ == tokens(s@)[k],
            forall|k: int|
                0 <= k < tokens_from(s@, i as int).len() ==> tokens_from(s@, i as int)[k]
                    == #[trigger] tokens(s@)[out@.len() + k],
        decreases n - i,
    {
        let c = s.get_char(i);
        if is_ws_exec(c) {
            i = i + 1;
        } else {
            let start = i;
            proof {
                lemma_token_end_bounds(s@, start as int);
            }
            let mut j: usize = i + 1;
            while j < n && !is_ws_exec(s.get_char(j))
                invariant
                    n == s@.len(),
                    start < j <= n,
                    token_end(s@, start as int) == token_end(s@, j as int),
                decreases n - j,
            {
                j = j + 1;
            }
            let tok = s.substring_char(start, j);
            let ghost rest = tokens_from(s@, j as int);
            assert(tokens_from(s@, start as int) == seq![s@.subrange(start as int, j as int)]
                + rest);
            let ghost old_len = out@.len();
            out.push(tok.to_string());
            assert(tokens_from(s@, start as int)[0] == tokens(s@)[old_len as int + 0]);
            assert forall|k: int| 0 <= k < rest.len() implies rest[k]
                == #[trigger] tokens(s@)[out@.len() + k] by {
                assert(tokens_from(s@, start as int)[k + 1] == rest[k]);
                assert(tokens_from(s@, start as int)[k + 1] == tokens(s@)[old_len + (k + 1)]);
            }
            i = j;
        }
    }
    out
}

} // verus!
