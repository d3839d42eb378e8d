//! Identifier case conversions used when generating code for models.

use vstd::prelude::*;

use crate::text::{
    all_ascii, ascii_lower, ascii_upper, char_to_lowercase, char_to_uppercase, chars_of, is_ascii_char,
    spec_char_lowercase, spec_char_uppercase, spec_is_uppercase, split, split_char, string_of,
    is_uppercase,
};

verus! {

/// A word with its first character uppercased (as `char::to_uppercase` maps it).
pub open spec fn capitalized(w: Seq<char>) -> Seq<char> {
    if w.len() == 0 {
        Seq::empty()
    } else {
        spec_char_uppercase(w[0]) + w.drop_first()
    }
}

/// The concatenation of the first `n` words, each capitalized.
pub open spec fn capitalized_words(words: Seq<Seq<char>>, n: int) -> Seq<char>
    decreases n,
{
    if n <= 0 {
        Seq::empty()
    } else {
        capitalized_words(words, n - 1) + capitalized(words[n - 1])
    }
}

/// PascalCase of a snake_case name: the words between underscores, each
/// capitalized, joined without separator.
pub open spec fn pascal_case(s: Seq<char>) -> Seq<char> {
    capitalized_words(split(s, '_'), split(s, '_').len() as int)
}

/// A word with its first character in ASCII uppercase.
pub open spec fn ascii_capitalized(w: Seq<char>) -> Seq<char> {
    if w.len() == 0 {
        Seq::empty()
    } else {
        seq![ascii_upper(w[0])] + w.drop_first()
    }
}

/// The concatenation of the first `n` words, each with its first character
/// in ASCII uppercase.
pub open spec fn ascii_capitalized_words(words: Seq<Seq<char>>, n: int) -> Seq<char>
    decreases n,
{
    if n <= 0 {
        Seq::empty()
    } else {
        ascii_capitalized_words(words, n - 1) + ascii_capitalized(words[n - 1])
    }
}

/// PascalCase of an ASCII snake_case name.
pub open spec fn ascii_pascal_case(s: Seq<char>) -> Seq<char> {
    ascii_capitalized_words(split(s, '_'), split(s, '_').len() as int)
}

/// The pieces of an ASCII text are ASCII.
proof fn lemma_split_ascii(s: Seq<char>, c: char)
    requires
        all_ascii(s),
    ensures
        forall|k: int| 0 <= k < split(s, c).len() ==> all_ascii(#[trigger] split(s, c)[k]),
    decreases s.len(),
{
    crate::text::lemma_index_from_bounds(s, c, 0);
    let i = crate::text::find(s, c);
    if 0 <= i < s.len() {
        let rest = s.subrange(i + 1, s.len() as int);
        assert(all_ascii(rest)) by {
            assert forall|j: int| 0 <= j < rest.len() implies is_ascii_char(#[trigger] rest[j]) by {
                assert(rest[j] == s[i + 1 + j]);
            }
        }
        lemma_split_ascii(rest, c);
        let parts = split(s, c);
        assert(parts == seq![s.subrange(0, i)] + split(rest, c));
        assert forall|k: int| 0 <= k < parts.len() implies all_ascii(#[trigger] parts[k]) by {
            if k > 0 {
                assert(parts[k] == split(rest, c)[k - 1]);
            } else {
                assert forall|j: int| 0 <= j < parts[0].len() implies is_ascii_char(#[trigger] parts[0][j]) by {
                    assert(parts[0][j] == s[j]);
                }
            }
        }
    }
}

/// Convert snake_case to PascalCase for enum variants
pub fn to_pascal_case(s: &str) -> (res: String)
    ensures
        res@ == pascal_case(s@),
        all_ascii(s@) ==> res@ == ascii_pascal_case(s@),
{
    proof {
        if all_ascii(s@) {
            lemma_split_ascii(s@, '_');
        }
    }
    let cs = chars_of(s);
    let words = split_char(&cs, '_');
    let ghost ws = split(s@, '_');
    let mut out: Vec<char> = Vec::new();
    let mut i: usize = 0;
    while i < words.len()
        invariant
            cs@ == s@,
            words@.len() == ws.len(),
            ws == split(s@, '_'),
            forall|j: int| 0 <= j < words@.len() ==> #[trigger] words@[j]@ == ws[j],
            i <= words@.len(),
            out@ == capitalized_words(ws, i as int),
            all_ascii(s@) ==> forall|k: int| 0 <= k < ws.len() ==> all_ascii(#[trigger] ws[k]),
            all_ascii(s@) ==> out@ == ascii_capitalized_words(ws, i as int),
        decreases words@.len() - i,
    {
        let w = &words[i];
        proof {
            assert(w@ == ws[i as int]);
        }
        if w.len() > 0 {
            let up = char_to_uppercase(w[0]);
            crate::text::extend_chars(&mut out, &up);
            let rest = crate::text::slice_chars(w, 1, w.len());
            crate::text::extend_chars(&mut out, &rest);
            proof {
                assert(rest@ =~= w@.drop_first());
            }
        }
        proof {
            assert(out@ =~= capitalized_words(ws, i as int + 1));
            if all_ascii(s@) {
                assert(out@ =~= ascii_capitalized_words(ws, i as int + 1));
            }
        }
        i = i + 1;
    }
    string_of(&out)
}

/// snake_case of a name: each uppercase character becomes the first
/// character of its lowercase form, preceded by `_` unless nothing has been
/// written yet.
pub open spec fn snake_case(s: Seq<char>) -> Seq<char>
    decreases s.len(),
{
    if s.len() == 0 {
        Seq::empty()
    } else {
        let r = snake_case(s.drop_last());
        let c = s.last();
        if spec_is_uppercase(c) {
            if r.len() > 0 {
                r.push('_').push(spec_char_lowercase(c)[0])
            } else {
                r.push(spec_char_lowercase(c)[0])
            }
        } else {
            r.push(c)
        }
    }
}

/// snake_case of an ASCII name: each of `A` to `Z` becomes its lowercase
/// letter, preceded by `_` unless nothing has been written yet.
pub open spec fn ascii_snake_case(s: Seq<char>) -> Seq<char>
    decreases s.len(),
{
    if s.len() == 0 {
        Seq::empty()
    } else {
        let r = ascii_snake_case(s.drop_last());
        let c = s.last();
        if 'A' <= c && c <= 'Z' {
            if r.len() > 0 {
                r.push('_').push(ascii_lower(c))
            } else {
                r.push(ascii_lower(c))
            }
        } else {
            r.push(c)
        }
    }
}

/// Convert a PascalCase or camelCase name to snake_case
pub fn to_snake_case(s: &str) -> (res: String)
    ensures
        res@ == snake_case(s@),
        all_ascii(s@) ==> res@ == ascii_snake_case(s@),
{
    let cs = chars_of(s);
    let mut out: Vec<char> = Vec::new();
    let mut i: usize = 0;
    while i < cs.len()
        invariant
            cs@ == s@,
            i <= cs@.len(),
            out@ == snake_case(s@.take(i as int)),
            all_ascii(s@) ==> out@ == ascii_snake_case(s@.take(i as int)),
        decreases cs@.len() - i,
    {
        proof {
            assert(s@.take(i + 1).drop_last() =~= s@.take(i as int));
        }
        let c = cs[i];
        proof {
            assert(s@.take(i + 1).last() == c);
            if all_ascii(s@) {
                assert(is_ascii_char(s@[i as int]));
            }
        }
        if is_uppercase(c) {
            if out.len() > 0 {
                out.push('_');
            }
            let low = char_to_lowercase(c);
            out.push(low[0]);
        } else {
            out.push(c);
        }
        i = i + 1;
    }
    proof {
        assert(s@.take(cs@.len() as int) =~= s@);
    }
    string_of(&out)
}

} // verus!
