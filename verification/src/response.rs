//! Shaping the text that the language model generates into one chat message.

use vstd::prelude::*;
use crate::text::{first_index_of, lemma_first_index_of_props, chars_of, find_char_from, string_of_range};

verus! {

/// What `strip_text` returns for `s`: a reply of the shape `Bot : answer`
/// loses everything up to its first `:`, and of what follows only the first
/// line is kept. A piece that would come out empty is not cut.
pub open spec fn strip_text_spec(s: Seq<char>) -> Seq<char> {
    let post = match first_index_of(s, ':') {
        Some(i) => s.skip(i + 1),
        None => Seq::<char>::empty(),
    };
    if post.len() == 0 {
        s
    } else {
        let pre = match first_index_of(post, '\n') {
            Some(j) => post.take(j),
            None => Seq::<char>::empty(),
        };
        if pre.len() == 0 {
            post
        } else {
            pre
        }
    }
}

/// Removes a `speaker :` prefix and keeps only the first line of what follows.
pub fn strip_text(input: String) -> (res: String)
    ensures
        res@ == strip_text_spec(input@),
{
    let cs = chars_of(input.as_str());
    let n: usize = cs.len();
    let ghost s = input@;
    assert(cs@.skip(0) =~= cs@);
    match find_char_from(&cs, ':', 0) {
        None => input,
        Some(i) => {
            let ghost post = s.skip(i + 1);
            if i + 1 == n {
                assert(post.len() == 0);
                input
            } else {
                assert(post =~= cs@.subrange(i + 1, n as int));
                assert(cs@.skip(i + 1) == post);
                match find_char_from(&cs, '\n', i + 1) {
                    None => string_of_range(&cs, i + 1, n),
                    Some(j) => {
                        if j == i + 1 {
                            assert(post.take(0).len() == 0);
                            string_of_range(&cs, i + 1, n)
                        } else {
                            assert(post.take(j - (i + 1)) =~= cs@.subrange(i + 1, j as int));
                            string_of_range(&cs, i + 1, j)
                        }
                    },
                }
            }
        },
    }
}

/// The characters that `trim_quotes` strips from both ends.
pub open spec fn is_quote_char(c: char) -> bool {
    c == '"' || c == '\'' || c == ' '
}

/// `s` without its leading quote characters.
pub open spec fn trim_quotes_start(s: Seq<char>) -> Seq<char>
    decreases s.len(),
{
    if s.len() > 0 && is_quote_char(s[0]) {
        trim_quotes_start(s.drop_first())
    } else {
        s
    }
}

/// `s` without its trailing quote characters.
pub open spec fn trim_quotes_end(s: Seq<char>) -> Seq<char>
    decreases s.len(),
{
    if s.len() > 0 && is_quote_char(s.last()) {
        trim_quotes_end(s.drop_last())
    } else {
        s
    }
}

/// `s` without quote characters at either end.
pub open spec fn trim_quotes_spec(s: Seq<char>) -> Seq<char> {
    trim_quotes_end(trim_quotes_start(s))
}

proof fn lemma_trim_start_at(s: Seq<char>, i: int)
    requires
        0 <= i <= s.len(),
        forall|j: int| 0 <= j < i ==> is_quote_char(#[trigger] s[j]),
        i == s.len() || !is_quote_char(s[i]),
    ensures
        trim_quotes_start(s) == s.skip(i),
    decreases s.len(),
{
    if i > 0 {
        assert(s.drop_first().skip(i - 1) =~= s.skip(i));
        lemma_trim_start_at(s.drop_first(), i - 1);
    } else {
        assert(s.skip(0) =~= s);
    }
}

proof fn lemma_trim_end_at(s: Seq<char>, k: int)
    requires
        0 <= k <= s.len(),
        forall|j: int| k <= j < s.len() ==> is_quote_char(#[trigger] s[j]),
        k == 0 || !is_quote_char(s[k - 1]),
    ensures
        trim_quotes_end(s) == s.take(k),
    decreases s.len(),
{
    if k < s.len() {
        assert(s.drop_last().take(k) =~= s.take(k));
        lemma_trim_end_at(s.drop_last(), k);
    } else {
        assert(s.take(k) =~= s);
    }
}

/// Strips `"`, `'` and spaces from both ends of `s` (std's `trim_matches`
/// with that set of characters).
pub fn trim_quotes(s: &str) -> (res: String)
    ensures
        res@ == trim_quotes_spec(s@),
{
    let cs = chars_of(s);
    let n: usize = cs.len();
    let mut i: usize = 0;
    while i < n && (cs[i] == '"' || cs[i] == '\'' || cs[i] == ' ')
        invariant
            n == cs@.len(),
            i <= n,
            forall|j: int| 0 <= j < i ==> is_quote_char(#[trigger] cs@[j]),
        decreases n - i,
    {
        i = i + 1;
    }
    proof {
        lemma_trim_start_at(cs@, i as int);
    }
    let mut k: usize = n;
    while k > i && (cs[k - 1] == '"' || cs[k - 1] == '\'' || cs[k - 1] == ' ')
        invariant
            n == cs@.len(),
            i <= k <= n,
            forall|j: int| k <= j < n ==> is_quote_char(#[trigger] cs@[j]),
        decreases k,
    {
        k = k - 1;
    }
    proof {
        let t = cs@.skip(i as int);
        assert forall|j: int| k - i <= j < t.len() implies is_quote_char(#[trigger] t[j]) by {
            assert(t[j] == cs@[i + j]);
        }
        if k > i {
            assert(t[k - i - 1] == cs@[k - 1]);
        }
        lemma_trim_end_at(t, k - i);
        assert(t.take(k - i) =~= cs@.subrange(i as int, k as int));
    }
    string_of_range(&cs, i, k)
}

proof fn lemma_trim_start_props(s: Seq<char>)
    ensures
        exists|i: int| 0 <= i <= s.len() && trim_quotes_start(s) == #[trigger] s.skip(i),
        trim_quotes_start(s).len() > 0 ==> !is_quote_char(trim_quotes_start(s)[0]),
    decreases s.len(),
{
    if s.len() > 0 && is_quote_char(s[0]) {
        lemma_trim_start_props(s.drop_first());
        let i: int = choose|i: int| 0 <= i <= s.drop_first().len() && trim_quotes_start(s.drop_first()) == #[trigger] s.drop_first().skip(i);
        assert(s.drop_first().skip(i) =~= s.skip(i + 1));
    } else {
        assert(s.skip(0) =~= s);
    }
}

proof fn lemma_trim_end_props(s: Seq<char>)
    ensures
        exists|k: int| 0 <= k <= s.len() && trim_quotes_end(s) == #[trigger] s.take(k),
        trim_quotes_end(s).len() > 0 ==> !is_quote_char(trim_quotes_end(s).last()),
    decreases s.len(),
{
    if s.len() > 0 && is_quote_char(s.last()) {
        lemma_trim_end_props(s.drop_last());
        let k: int = choose|k: int| 0 <= k <= s.drop_last().len() && trim_quotes_end(s.drop_last()) == #[trigger] s.drop_last().take(k);
        assert(s.drop_last().take(k) =~= s.take(k));
    } else {
        assert(s.take(s.len() as int) =~= s);
    }
}

proof fn lemma_trim_end_keeps_start(s: Seq<char>)
    requires
        s.len() > 0 ==> !is_quote_char(s[0]),
    ensures
        trim_quotes_end(s).len() > 0 ==> trim_quotes_end(s)[0] == s[0],
        trim_quotes_end(s).len() > 0 ==> !is_quote_char(trim_quotes_end(s)[0]),
{
    lemma_trim_end_props(s);
}

proof fn trim_start_index(s: Seq<char>) -> (i: int)
    ensures
        0 <= i <= s.len(),
        forall|j: int| 0 <= j < i ==> is_quote_char(#[trigger] s[j]),
        i == s.len() || !is_quote_char(s[i]),
        trim_quotes_start(s) == s.skip(i),
    decreases s.len(),
{
    if s.len() > 0 && is_quote_char(s[0]) {
        let i0 = trim_start_index(s.drop_first());
        assert forall|j: int| 0 <= j < i0 + 1 implies is_quote_char(#[trigger] s[j]) by {
            if j > 0 {
                assert(s[j] == s.drop_first()[j - 1]);
            }
        }
        assert(s.drop_first().skip(i0) =~= s.skip(i0 + 1));
        i0 + 1
    } else {
        assert(s.skip(0) =~= s);
        0
    }
}

proof fn trim_end_index(s: Seq<char>) -> (k: int)
    ensures
        0 <= k <= s.len(),
        forall|j: int| k <= j < s.len() ==> is_quote_char(#[trigger] s[j]),
        k == 0 || !is_quote_char(s[k - 1]),
        trim_quotes_end(s) == s.take(k),
    decreases s.len(),
{
    if s.len() > 0 && is_quote_char(s.last()) {
        let k0 = trim_end_index(s.drop_last());
        assert forall|j: int| k0 <= j < s.len() implies is_quote_char(#[trigger] s[j]) by {
            if j < s.len() - 1 {
                assert(s[j] == s.drop_last()[j]);
            }
        }
        assert(s.drop_last().take(k0) =~= s.take(k0));
        k0
    } else {
        assert(s.take(s.len() as int) =~= s);
        s.len() as int
    }
}

/// Trimming removes `"`, `'` and spaces from the two ends and nothing else:
/// the result is the piece `s[i..k]`, everything before `i` and from `k` on
/// is one of those three characters, and the piece, when not empty, neither
/// starts nor ends with one of them.
pub proof fn lemma_trim_quotes_removes_only_quotes(s: Seq<char>)
    ensures
        exists|i: int, k: int|
            {
                &&& 0 <= i <= k <= s.len()
                &&& trim_quotes_spec(s) == #[trigger] s.subrange(i, k)
                &&& forall|j: int|
                    0 <= j < i ==> (s[j] == '"' || s[j] == '\'' || s[j] == ' ')
                &&& forall|j: int|
                    k <= j < s.len() ==> (s[j] == '"' || s[j] == '\'' || s[j] == ' ')
                &&& i < k ==> (s[i] != '"' && s[i] != '\'' && s[i] != ' ')
                &&& i < k ==> (s[k - 1] != '"' && s[k - 1] != '\'' && s[k - 1] != ' ')
            },
{
    let i = trim_start_index(s);
    let t = s.skip(i);
    let k0 = trim_end_index(t);
    let k = i + k0;
    assert(t.take(k0) =~= s.subrange(i, k));
    assert forall|j: int| 0 <= j < i implies (s[j] == '"' || s[j] == '\'' || s[j] == ' ') by {
        assert(is_quote_char(s[j]));
    }
    assert forall|j: int| k <= j < s.len() implies (s[j] == '"' || s[j] == '\'' || s[j] == ' ') by {
        assert(s[j] == t[j - i]);
        assert(is_quote_char(t[j - i]));
    }
    if i < k {
        assert(s[k - 1] == t[k0 - 1]);
        assert(s[i] == t[0]);
        if k0 == t.len() {
        }
    }
    assert(trim_quotes_spec(s) == s.subrange(i, k));
}

/// A trimmed text neither starts nor ends with a quote character.
pub proof fn lemma_trim_quotes_ends(s: Seq<char>)
    ensures
        trim_quotes_spec(s).len() > 0 ==> !is_quote_char(trim_quotes_spec(s)[0]),
        trim_quotes_spec(s).len() > 0 ==> !is_quote_char(trim_quotes_spec(s).last()),
{
    lemma_trim_start_props(s);
    lemma_trim_end_keeps_start(trim_quotes_start(s));
    lemma_trim_end_props(trim_quotes_start(s));
}

/// Trimming twice trims no more than trimming once.
pub proof fn lemma_trim_quotes_idempotent(s: Seq<char>)
    ensures
        trim_quotes_spec(trim_quotes_spec(s)) == trim_quotes_spec(s),
{
    let t = trim_quotes_spec(s);
    lemma_trim_quotes_ends(s);
    if t.len() > 0 {
        assert(trim_quotes_start(t) == t);
        assert(trim_quotes_end(t) == t);
    } else {
        assert(trim_quotes_start(t) == t);
        assert(trim_quotes_end(t) == t);
    }
}

/// `strip_text` hands back a contiguous piece of its input.
pub proof fn lemma_strip_text_is_piece(s: Seq<char>)
    ensures
        exists|i: int, j: int| 0 <= i <= j <= s.len() && strip_text_spec(s) == #[trigger] s.subrange(i, j),
{
    lemma_first_index_of_props(s, ':');
    match first_index_of(s, ':') {
        Some(i) => {
            let post = s.skip(i + 1);
            if post.len() == 0 {
                assert(s.subrange(0, s.len() as int) =~= s);
            } else {
                lemma_first_index_of_props(post, '\n');
                match first_index_of(post, '\n') {
                    Some(j) => {
                        if j == 0 {
                            assert(s.subrange(i + 1, s.len() as int) =~= post);
                        } else {
                            assert(s.subrange(i + 1, i + 1 + j) =~= post.take(j));
                        }
                    },
                    None => {
                        assert(s.subrange(i + 1, s.len() as int) =~= post);
                    },
                }
            }
        },
        None => {
            assert(s.subrange(0, s.len() as int) =~= s);
        },
    }
}

/// A reply without a `:` goes through `strip_text` unchanged.
pub proof fn lemma_strip_text_without_colon(s: Seq<char>)
    requires
        !s.contains(':'),
    ensures
        strip_text_spec(s) == s,
{
    lemma_first_index_of_props(s, ':');
    if let Some(i) = first_index_of(s, ':') {
        assert(s[i] == ':');
    }
}

/// What becomes of a generated reply before it is sent: `strip_text`, then
/// quote characters trimmed from both ends.
pub open spec fn clean_generation_spec(s: Seq<char>) -> Seq<char> {
    trim_quotes_spec(strip_text_spec(s))
}

/// Turns the raw text that the model generated into the message to post.
pub fn clean_generation(generated: String) -> (res: String)
    ensures
        res@ == clean_generation_spec(generated@),
{
    let stripped = strip_text(generated);
    trim_quotes(stripped.as_str())
}

} // verus!
