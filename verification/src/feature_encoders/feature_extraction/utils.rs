//! The default tokenizer: splits text on whitespace and drops the empty
//! pieces, so the tokens are exactly the maximal nonempty runs of
//! non-whitespace characters, in order.

use vstd::prelude::*;

verus! {

/// The characters the tokenizer splits on: the Unicode whitespace set.
pub open spec fn is_space(c: char) -> bool {
    ||| c == '\u{0009}'
    ||| c == '\u{000A}'
    ||| c == '\u{000B}'
    ||| c == '\u{000C}'
    ||| c == '\u{000D}'
    ||| c == '\u{0020}'
    ||| c == '\u{0085}'
    ||| c == '\u{00A0}'
    ||| c == '\u{1680}'
    ||| c == '\u{2000}'
    ||| c == '\u{2001}'
    ||| c == '\u{2002}'
    ||| c == '\u{2003}'
    ||| c == '\u{2004}'
    ||| c == '\u{2005}'
    ||| c == '\u{2006}'
    ||| c == '\u{2007}'
    ||| c == '\u{2008}'
    ||| c == '\u{2009}'
    ||| c == '\u{200A}'
    ||| c == '\u{2028}'
    ||| c == '\u{2029}'
    ||| c == '\u{202F}'
    ||| c == '\u{205F}'
    ||| c == '\u{3000}'
}

/// The length of the leading run of non-space characters.
pub open spec fn token_len(s: Seq<char>) -> int
    decreases s.len(),
{
    if s.len() == 0 || is_space(s[0]) {
        0
    } else {
        1 + token_len(s.drop_first())
    }
}

/// The leading token run is never longer than the text, and what bounds it
/// is a space.
pub proof fn lemma_token_len(s: Seq<char>)
    ensures
        0 <= token_len(s) <= s.len(),
        forall|j: int| 0 <= j < token_len(s) ==> !is_space(s[j]),
        token_len(s) < s.len() ==> is_space(s[token_len(s)]),
    decreases s.len(),
{
    if s.len() > 0 && !is_space(s[0]) {
        lemma_token_len(s.drop_first());
        assert(forall|j: int| 1 <= j < s.len() ==> s[j] == s.drop_first()[j - 1]);
    }
}

/// A run of `n` non-space characters bounded by the end or a space is the
/// leading token run.
pub proof fn lemma_token_len_is(s: Seq<char>, n: int)
    requires
        0 <= n <= s.len(),
        forall|j: int| 0 <= j < n ==> !is_space(#[trigger] s[j]),
        n == s.len() || is_space(s[n]),
    ensures
        token_len(s) == n,
    decreases s.len(),
{
    if n == 0 {
    } else {
        assert(!is_space(s[0]));
        assert(forall|j: int| 1 <= j < s.len() ==> s[j] == s.drop_first()[j - 1]);
        lemma_token_len_is(s.drop_first(), n - 1);
    }
}

/// The tokens of a text: the maximal nonempty runs of non-space characters,
/// in order.
pub open spec fn tokenize(s: Seq<char>) -> Seq<Seq<char>>
    decreases s.len(),
    via tokenize_decreases
{
    if s.len() == 0 {
        Seq::empty()
    } else if is_space(s[0]) {
        tokenize(s.drop_first())
    } else {
        seq![s.take(token_len(s))] + tokenize(s.skip(token_len(s)))
    }
}

#[via_fn]
proof fn tokenize_decreases(s: Seq<char>) {
    if s.len() > 0 && !is_space(s[0]) {
        lemma_token_len(s);
    }
}

/// Whether the tokenizer splits on this character.
pub fn is_space_char(c: char) -> (r: bool)
    ensures
        r == is_space(c),
{
    c == '\u{0009}' || c == '\u{000A}' || c == '\u{000B}' || c == '\u{000C}' || c == '\u{000D}'
        || c == '\u{0020}' || c == '\u{0085}' || c == '\u{00A0}' || c == '\u{1680}' || (
    '\u{2000}' <= c && c <= '\u{200A}') || c == '\u{2028}' || c == '\u{2029}' || c == '\u{202F}'
        || c == '\u{205F}' || c == '\u{3000}'
}

/// Splits a text on whitespace, dropping the empty pieces: the result reads
/// exactly as `tokenize` of the text's characters.
pub fn default_tokenizer(s: &str) -> (r: Vec<String>)
    ensures
        r@.map_values(|t: String| t@) == tokenize(s@),
{
    let n = s.unicode_len();
    let mut out: Vec<String> = Vec::new();
    let mut pos: usize = 0;
    proof {
        assert(s@.skip(0) =~= s@);
        assert(out@.map_values(|t: String| t@) =~= Seq::<Seq<char>>::empty());
    }
    while pos < n
        invariant
            0 <= pos <= n,
            n == s@.len(),
            tokenize(s@) == out@.map_values(|t: String| t@) + tokenize(s@.skip(pos as int)),
        decreases n - pos,
    {
        let c = s.get_char(pos);
        if is_space_char(c) {
            proof {
                assert(s@.skip(pos as int).drop_first() =~= s@.skip(pos as int + 1));
                assert(is_space(s@.skip(pos as int)[0]));
            }
            pos += 1;
        } else {
            let start = pos;
            let mut end: usize = pos + 1;
            while end < n && !is_space_char(s.get_char(end))
                invariant
                    start < end <= n,
                    n == s@.len(),
                    forall|j: int| start <= j < end ==> !is_space(#[trigger] s@[j]),
                decreases n - end,
            {
                end += 1;
            }
            let token = s.substring_char(start, end).to_owned();
            proof {
                let rest = s@.skip(start as int);
                assert(forall|j: int|
                    0 <= j < rest.len() ==> rest[j] == s@[start as int + j]);
                lemma_token_len_is(rest, end - start);
                assert(!is_space(rest[0]));
                assert(tokenize(rest) == seq![rest.take(end - start)] + tokenize(
                    rest.skip(end - start),
                ));
                assert(rest.take(end - start) =~= s@.subrange(start as int, end as int));
                assert(rest.skip(end - start) =~= s@.skip(end as int));
                assert(token@ == s@.subrange(start as int, end as int));
            }
            out.push(token);
            proof {
                assert(out@.map_values(|t: String| t@) =~= out@.drop_last().map_values(
                    |t: String| t@,
                ).push(token@));
                assert(out@.drop_last().map_values(|t: String| t@).push(token@) + tokenize(
                    s@.skip(end as int),
                ) =~= out@.drop_last().map_values(|t: String| t@) + (seq![token@] + tokenize(
                    s@.skip(end as int),
                )));
            }
            pos = end;
        }
    }
    proof {
        assert(s@.skip(n as int) =~= Seq::<char>::empty());
        assert(tokenize(s@) =~= out@.map_values(|t: String| t@));
    }
    out
}

} // verus!
