//! Text rules around names and chat: length limits, whitespace trimming,
//! the default display name, and the banned-word filter with its
//! stream-mode severity switch.

use vstd::prelude::*;

use vstd::string::StrSliceExecFns;

verus! {

/// A word that may not appear in names or chat. A full ban always holds; a
/// light ban only holds while stream mode is on.
#[derive(Clone, Debug)]
pub struct BannedWord {
    pub word: String,
    pub full_ban: bool,
}

/// The moderation switches and word list.
#[derive(Clone, Debug)]
pub struct ModerationState {
    pub words: Vec<BannedWord>,
    pub stream_mode: bool,
}

impl ModerationState {
    /// No banned words, stream mode off.
    pub fn new() -> (r: ModerationState)
        ensures
            r.words@.len() == 0,
            r.stream_mode == false,
    {
        ModerationState { words: Vec::new(), stream_mode: false }
    }
}

/// Whether stream mode is on.
pub fn get_stream_mode(state: &ModerationState) -> (r: bool)
    ensures
        r == state.stream_mode,
{
    state.stream_mode
}

/// Switch stream mode on or off.
pub fn set_stream_mode(state: &mut ModerationState, stream_mode: bool)
    ensures
        final(state).stream_mode == stream_mode,
        final(state).words == old(state).words,
{
    state.stream_mode = stream_mode;
}

/// The whitespace the name rules strip: space, tab and line breaks.
pub open spec fn spec_is_space(c: char) -> bool {
    c == ' ' || c == '\t' || c == '\n' || c == '\r'
}

/// `s` with leading whitespace removed.
pub open spec fn spec_trim_start(s: Seq<char>) -> Seq<char>
    decreases s.len(),
{
    if s.len() == 0 {
        s
    } else if spec_is_space(s[0]) {
        spec_trim_start(s.skip(1))
    } else {
        s
    }
}

/// `s` with trailing whitespace removed.
pub open spec fn spec_trim_end(s: Seq<char>) -> Seq<char>
    decreases s.len(),
{
    if s.len() == 0 {
        s
    } else if spec_is_space(s.last()) {
        spec_trim_end(s.drop_last())
    } else {
        s
    }
}

/// `s` with whitespace removed at both ends.
pub open spec fn spec_trimmed(s: Seq<char>) -> Seq<char> {
    spec_trim_end(spec_trim_start(s))
}

/// The first `limit` characters of `s`, or all of them if fewer.
pub open spec fn spec_take_chars(s: Seq<char>, limit: int) -> Seq<char> {
    if s.len() <= limit {
        s
    } else {
        s.take(limit)
    }
}

/// The default display name.
pub open spec fn spec_default_name() -> Seq<char> {
    seq!['A', 'n', 'o', 'n']
}

/// The display name the server accepts for a requested name: truncated to
/// the name limit, trimmed, and replaced by the default when nothing is
/// left.
pub open spec fn spec_sanitize_name(s: Seq<char>) -> Seq<char> {
    let t = spec_trimmed(spec_take_chars(s, crate::NAME_LIMIT as int));
    if t.len() == 0 {
        spec_default_name()
    } else {
        t
    }
}

/// Whether a character is in the stripped whitespace set.
fn is_space(c: char) -> (r: bool)
    ensures
        r == spec_is_space(c),
{
    c == ' ' || c == '\t' || c == '\n' || c == '\r'
}

/// The first `limit` characters of `s`.
pub fn truncate_chars(s: &str, limit: usize) -> (r: String)
    ensures
        r@ == spec_take_chars(s@, limit as int),
{
    let n = s.unicode_len();
    if n <= limit {
        s.to_owned()
    } else {
        let cut = s.substring_char(0, limit);
        assert(cut@ =~= s@.take(limit as int));
        cut.to_owned()
    }
}

/// Skipping a leading space commutes with trimming.
proof fn lemma_trim_start_skip(s: Seq<char>, i: int)
    requires
        0 <= i <= s.len(),
        forall|k: int| 0 <= k < i ==> spec_is_space(#[trigger] s[k]),
    ensures
        spec_trim_start(s) == spec_trim_start(s.skip(i)),
    decreases i,
{
    if i > 0 {
        assert(spec_is_space(s[0]));
        assert(spec_trim_start(s) == spec_trim_start(s.skip(1)));
        assert(s.skip(1).skip(i - 1) =~= s.skip(i));
        lemma_trim_start_skip(s.skip(1), i - 1);
    } else {
        assert(s.skip(0) =~= s);
    }
}

/// Dropping a trailing space commutes with trimming.
proof fn lemma_trim_end_take(s: Seq<char>, e: int)
    requires
        0 <= e <= s.len(),
        forall|k: int| e <= k < s.len() ==> spec_is_space(#[trigger] s[k]),
    ensures
        spec_trim_end(s) == spec_trim_end(s.take(e)),
    decreases s.len() - e,
{
    if e < s.len() {
        assert(spec_is_space(s.last()));
        assert(spec_trim_end(s) == spec_trim_end(s.drop_last()));
        assert(s.drop_last() =~= s.take(s.len() - 1));
        assert(s.take(s.len() - 1).take(e) =~= s.take(e));
        lemma_trim_end_take(s.take(s.len() - 1), e);
    } else {
        assert(s.take(e) =~= s);
    }
}

/// `s` with whitespace stripped from both ends.
pub fn trim_str(s: &str) -> (r: String)
    ensures
        r@ == spec_trimmed(s@),
{
    let n = s.unicode_len();
    let mut start: usize = 0;
    while start < n && is_space(s.get_char(start))
        invariant
            start <= n,
            n == s@.len(),
            forall|k: int| 0 <= k < start ==> spec_is_space(#[trigger] s@[k]),
        decreases n - start,
    {
        start = start + 1;
    }
    proof {
        lemma_trim_start_skip(s@, start as int);
    }
    let ghost inner = s@.skip(start as int);
    if start < n {
        assert(!spec_is_space(s@[start as int]));
        assert(inner[0] == s@[start as int]);
        assert(spec_trim_start(s@) == inner);
    } else {
        assert(inner =~= Seq::<char>::empty());
        assert(spec_trim_start(s@) == inner);
    }
    let mut end: usize = n;
    while end > start && is_space(s.get_char(end - 1))
        invariant
            start <= end <= n,
            n == s@.len(),
            forall|k: int| end <= k < n ==> spec_is_space(#[trigger] s@[k]),
        decreases end,
    {
        end = end - 1;
    }
    proof {
        assert(forall|k: int|
            (end - start) <= k < inner.len() ==> spec_is_space(#[trigger] inner[k]));
        lemma_trim_end_take(inner, end - start);
        assert(inner.take(end - start) =~= s@.subrange(start as int, end as int));
    }
    if end > start {
        assert(!spec_is_space(s@[end - 1]));
        let ghost cut = inner.take(end - start);
        assert(cut.last() == s@[end - 1]);
        assert(spec_trim_end(cut) == cut);
    } else {
        assert(inner.take(end - start) =~= Seq::<char>::empty());
    }
    let out = s.substring_char(start, end);
    assert(out@ =~= s@.subrange(start as int, end as int));
    out.to_owned()
}

/// The display name the server accepts for a requested name.
pub fn sanitize_name(name: &str) -> (r: String)
    ensures
        r@ == spec_sanitize_name(name@),
{
    let truncated = truncate_chars(name, crate::NAME_LIMIT);
    let trimmed = trim_str(truncated.as_str());
    if trimmed.as_str().unicode_len() == 0 {
        let fallback = "Anon";
        proof {
            reveal_strlit("Anon");
            assert(fallback@ =~= spec_default_name());
        }
        fallback.to_owned()
    } else {
        trimmed
    }
}

/// What `str::to_lowercase` returns for the given characters. The result
/// depends on the characters alone.
pub uninterp spec fn lower_of(s: Seq<char>) -> Seq<char>;

/// Relies on `str::to_lowercase`: the lowercase mapping of the text,
/// depending on the characters alone; empty input gives empty output.
#[verifier::external_body]
fn lowercase(s: &str) -> (r: String)
    ensures
        r@ == lower_of(s@),
        s@.len() == 0 ==> r@.len() == 0,
{
    s.to_lowercase()
}

/// Whether `needle` occurs as a contiguous run inside `hay`.
pub open spec fn spec_contains_seq(hay: Seq<char>, needle: Seq<char>) -> bool {
    exists|i: int|
        0 <= i <= hay.len() - needle.len() && #[trigger] hay.subrange(i, i + needle.len())
            == needle
}

/// Substring search over the characters of two strings.
pub fn contains_str(hay: &str, needle: &str) -> (r: bool)
    ensures
        r == spec_contains_seq(hay@, needle@),
{
    let n = hay.unicode_len();
    let m = needle.unicode_len();
    if m > n {
        assert(!spec_contains_seq(hay@, needle@));
        return false;
    }
    if m == 0 {
        proof {
            assert(hay@.subrange(0, 0 + needle@.len() as int) =~= needle@);
        }
        return true;
    }
    let mut i: usize = 0;
    while i <= n - m
        invariant
            0 < m <= n,
            n == hay@.len(),
            m == needle@.len(),
            i <= n - m + 1,
            forall|ii: int|
                0 <= ii < i ==> #[trigger] hay@.subrange(ii, ii + needle@.len()) != needle@,
        decreases n - m + 1 - i,
    {
        let mut j: usize = 0;
        let mut matched = true;
        proof {
            assert(hay@.subrange(i as int, i as int) =~= needle@.take(0));
        }
        while j < m
            invariant
                0 < m <= n,
                n == hay@.len(),
                m == needle@.len(),
                i <= n - m,
                j <= m,
                matched ==> hay@.subrange(i as int, i + j) == needle@.take(j as int),
                !matched ==> hay@.subrange(i as int, i + m) != needle@,
            decreases m - j,
        {
            let hc = hay.get_char(i + j);
            let nc = needle.get_char(j);
            if hc != nc {
                proof {
                    if hay@.subrange(i as int, i + m) == needle@ {
                        assert(hay@.subrange(i as int, i + m)[j as int] == hay@[i + j]);
                        assert(needle@[j as int] == hay@[i + j]);
                    }
                }
                matched = false;
                j = m;
            } else {
                proof {
                    if matched {
                        assert(hay@.subrange(i as int, i + j + 1) =~= hay@.subrange(
                            i as int,
                            i + j,
                        ).push(hay@[i + j]));
                        assert(needle@.take(j + 1) =~= needle@.take(j as int).push(
                            needle@[j as int],
                        ));
                    }
                }
                j = j + 1;
            }
        }
        if matched {
            proof {
                assert(needle@.take(m as int) =~= needle@);
            }
            return true;
        }
        i = i + 1;
    }
    proof {
        if spec_contains_seq(hay@, needle@) {
            let w = choose|w: int|
                0 <= w <= hay@.len() - needle@.len() && #[trigger] hay@.subrange(
                    w,
                    w + needle@.len(),
                ) == needle@;
            assert(w < i);
        }
    }
    false
}

/// Whether a banned word forbids this text: the lowercased text contains
/// the word, and the ban applies (a full ban always, a light ban only in
/// stream mode).
pub open spec fn spec_banned(
    text: Seq<char>,
    words: Seq<BannedWord>,
    stream_mode: bool,
) -> bool {
    exists|i: int|
        0 <= i < words.len() && spec_contains_seq(lower_of(text), (#[trigger] words[i]).word@) && (
        words[i].full_ban || stream_mode)
}

/// Whether the banned-word rules forbid this text.
pub fn contains_banned(text: &str, words: &Vec<BannedWord>, stream_mode: bool) -> (r: bool)
    ensures
        r == spec_banned(text@, words@, stream_mode),
{
    let lower = lowercase(text);
    let mut i: usize = 0;
    while i < words.len()
        invariant
            i <= words@.len(),
            lower@ == lower_of(text@),
            forall|k: int|
                0 <= k < i ==> !(spec_contains_seq(lower_of(text@), (
                #[trigger] words@[k]).word@) && (words@[k].full_ban || stream_mode)),
        decreases words@.len() - i,
    {
        let word = &words[i];
        if (word.full_ban || stream_mode) && contains_str(lower.as_str(), word.word.as_str()) {
            return true;
        }
        i = i + 1;
    }
    false
}

/// The chat line as the world sees it: censored when the banned-word rules
/// forbid it, unchanged otherwise.
pub fn censor_chat(text: &str, words: &Vec<BannedWord>, stream_mode: bool) -> (r: String)
    ensures
        spec_banned(text@, words@, stream_mode) ==> r@ == seq!['*', '*', '*', '*', '*'],
        !spec_banned(text@, words@, stream_mode) ==> r@ == text@,
{
    if contains_banned(text, words, stream_mode) {
        let stars = "*****";
        proof {
            reveal_strlit("*****");
            assert(stars@ =~= seq!['*', '*', '*', '*', '*']);
        }
        stars.to_owned()
    } else {
        text.to_owned()
    }
}

/// The requested display name as the server sees it: censored when the
/// banned-word rules forbid it, unchanged otherwise.
pub fn filter_name(name: &str, words: &Vec<BannedWord>, stream_mode: bool) -> (r: String)
    ensures
        spec_banned(name@, words@, stream_mode) ==> r@ == seq!['*', '*', '*', '*', '*'],
        !spec_banned(name@, words@, stream_mode) ==> r@ == name@,
{
    censor_chat(name, words, stream_mode)
}

} // verus!
