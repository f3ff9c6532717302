//! Logging helpers: level filtering and the truncation used for display.

use vstd::prelude::*;
use crate::utils::text::{
    is_unicode_whitespace, is_word, join, join_with_space, lemma_words_are_words,
    lemma_words_extend_last, lemma_words_of_join, push_char, split_words, string_of, words,
};

verus! {

/// Verbosity of a log record, from the most to the least severe.
#[derive(Debug, Clone, Copy, PartialEq, Eq, Structural)]
pub enum Level {
    Error,
    Warn,
    Info,
    Debug,
    Trace,
}

/// The most verbose level that a filter lets through (`Off` lets nothing
/// through).
#[derive(Debug, Clone, Copy, PartialEq, Eq, Structural)]
pub enum LevelFilter {
    Off,
    Error,
    Warn,
    Info,
    Debug,
    Trace,
}

/// Rank of a record level: `Error` is 1 and `Trace` is 5.
pub open spec fn level_rank(l: Level) -> nat {
    match l {
        Level::Error => 1,
        Level::Warn => 2,
        Level::Info => 3,
        Level::Debug => 4,
        Level::Trace => 5,
    }
}

/// Rank of a filter: `Off` is 0 and `Trace` is 5, so that a level passes a
/// filter exactly when its rank is not above the filter's.
pub open spec fn filter_rank(f: LevelFilter) -> nat {
    match f {
        LevelFilter::Off => 0,
        LevelFilter::Error => 1,
        LevelFilter::Warn => 2,
        LevelFilter::Info => 3,
        LevelFilter::Debug => 4,
        LevelFilter::Trace => 5,
    }
}

fn level_rank_exec(l: Level) -> (r: u8)
    ensures
        r == level_rank(l),
{
    match l {
        Level::Error => 1,
        Level::Warn => 2,
        Level::Info => 3,
        Level::Debug => 4,
        Level::Trace => 5,
    }
}

fn filter_rank_exec(f: LevelFilter) -> (r: u8)
    ensures
        r == filter_rank(f),
{
    match f {
        LevelFilter::Off => 0,
        LevelFilter::Error => 1,
        LevelFilter::Warn => 2,
        LevelFilter::Info => 3,
        LevelFilter::Debug => 4,
        LevelFilter::Trace => 5,
    }
}

/// Custom logger for filtering specific message types
pub struct FilteredLogger {
    pub level: LevelFilter,
}

impl FilteredLogger {
    pub fn new(level: LevelFilter) -> (r: Self)
        ensures
            r.level == level,
    {
        Self { level }
    }

    /// Whether a record of the given level passes this logger's filter.
    pub fn should_log(&self, level: Level) -> (r: bool)
        ensures
            r == (level_rank(level) <= filter_rank(self.level)),
    {
        level_rank_exec(level) <= filter_rank_exec(self.level)
    }
}

/// The three dots appended to truncated text.
pub open spec fn ellipsis() -> Seq<char> {
    seq!['.', '.', '.']
}

fn append_ellipsis(s: &mut String)
    ensures
        final(s)@ == old(s)@ + ellipsis(),
{
    push_char(s, '.');
    push_char(s, '.');
    push_char(s, '.');
    assert(final(s)@ =~= old(s)@ + ellipsis());
}

/// Byte length at which `truncate_string` cuts a string longer than
/// `max_len`: three bytes are kept for the ellipsis.
pub open spec fn cut_len(max_len: usize) -> nat {
    if max_len >= 3 { (max_len - 3) as nat } else { 0 }
}

/// The dots that end a truncated string: the full ellipsis when the limit
/// leaves room for it, else as many dots as the limit allows.
pub open spec fn limited_ellipsis(max_len: usize) -> Seq<char> {
    if max_len >= 3 { ellipsis() } else { ellipsis().take(max_len as int) }
}

/// Appends the first `n` dots of the ellipsis.
fn append_dots(s: &mut String, n: usize)
    requires
        n <= 3,
    ensures
        final(s)@ == old(s)@ + ellipsis().take(n as int),
{
    let mut i: usize = 0;
    while i < n
        invariant
            i <= n <= 3,
            s@ == old(s)@ + ellipsis().take(i as int),
        decreases n - i,
    {
        push_char(s, '.');
        assert(ellipsis().take(i + 1) =~= ellipsis().take(i as int).push('.'));
        i = i + 1;
    }
}

/// The text shown for `s` when it is limited to `max_len` bytes: `s`
/// itself when its UTF-8 form is no longer than that, else the characters
/// of its first `cut_len(max_len)` bytes followed by `limited_ellipsis`.
pub open spec fn truncated_string(s: Seq<char>, max_len: usize) -> Seq<char> {
    let b = vstd::utf8::encode_utf8(s);
    if b.len() <= max_len {
        s
    } else {
        vstd::utf8::decode_utf8(b.subrange(0, cut_len(max_len) as int)) + limited_ellipsis(max_len)
    }
}

/// Truncate a string to a maximum length with ellipsis
///
/// Lengths are UTF-8 byte lengths, and the result is never longer than
/// `max_len`. A string no longer than `max_len` is returned as it is; a
/// longer one keeps its first `max_len - 3` bytes followed by `...`, and
/// for a limit below three only as many dots as the limit allows. The cut
/// must fall on a character boundary (slicing a `str` elsewhere panics),
/// and the byte length of a string held in memory fits in `usize`.
pub fn truncate_string(s: &str, max_len: usize) -> (r: String)
    requires
        vstd::utf8::encode_utf8(s@).len() <= usize::MAX,
        vstd::utf8::encode_utf8(s@).len() > max_len ==> vstd::utf8::is_char_boundary(
            vstd::utf8::encode_utf8(s@),
            cut_len(max_len) as int,
        ),
    ensures
        r@ == truncated_string(s@, max_len),
{
    if s.len() <= max_len {
        string_of(s)
    } else {
        let cut = if max_len >= 3 { max_len - 3 } else { 0 };
        let (head, _tail) = s.split_at(cut);
        proof {
            vstd::utf8::encode_utf8_decode_utf8(head@);
            assert(vstd::utf8::encode_utf8(head@) =~= vstd::utf8::encode_utf8(s@).subrange(
                0,
                cut as int,
            ));
        }
        let mut r = string_of(head);
        if max_len >= 3 {
            append_ellipsis(&mut r);
        } else {
            append_dots(&mut r, max_len);
        }
        r
    }
}

/// Number of words that a truncated text keeps when it has more than
/// `max_words` words: one slot is left for the ellipsis.
pub open spec fn kept_words(max_words: usize) -> nat {
    if max_words >= 1 { (max_words - 1) as nat } else { 0 }
}

/// The text shown for `s` when it is limited to `max_words` words: `s`
/// itself when it has no more words than that, else its first
/// `kept_words(max_words)` words joined by single spaces, followed by `...`.
pub open spec fn truncated_words(s: Seq<char>, max_words: usize) -> Seq<char> {
    let w = words(s);
    if w.len() <= max_words {
        s
    } else {
        join(w.take(kept_words(max_words) as int), seq![' ']) + ellipsis()
    }
}

/// Truncate content to a maximum word count
pub fn truncate_words(content: &str, max_words: usize) -> (r: String)
    ensures
        r@ == truncated_words(content@, max_words),
{
    let words_vec = split_words(content);
    if words_vec.len() <= max_words {
        string_of(content)
    } else {
        let keep = if max_words >= 1 { max_words - 1 } else { 0 };
        let mut r = join_with_space(&words_vec, keep);
        assert(words_vec@.take(keep as int).map_values(|p: String| p@) =~= words(content@).take(
            keep as int,
        ));
        append_ellipsis(&mut r);
        r
    }
}

/// Limited text respects its limit: text limited to `max_words` words (at
/// least one) has at most `max_words` words, the ellipsis counted with the
/// word it ends.
pub proof fn lemma_truncated_words_within_limit(s: Seq<char>, max_words: usize)
    requires
        max_words >= 1,
    ensures
        words(truncated_words(s, max_words)).len() <= max_words,
{
    let w = words(s);
    if w.len() > max_words {
        let k = kept_words(max_words) as int;
        let parts = w.take(k);
        lemma_words_are_words(s);
        assert forall|i: int| 0 <= i < parts.len() implies is_word(#[trigger] parts[i]) by {
            assert(parts[i] == w[i]);
        }
        lemma_words_of_join(parts);
        let dots = ellipsis();
        assert(is_word(dots)) by {
            assert forall|j: int| 0 <= j < dots.len() implies !is_unicode_whitespace(#[trigger] dots[j]) by {
                assert(dots[j] == '.');
            }
        }
        lemma_words_extend_last(join(parts, seq![' ']), dots);
    }
}

/// The UTF-8 form of two texts one after the other is their forms one
/// after the other.
proof fn lemma_encode_utf8_concat(a: Seq<char>, b: Seq<char>)
    ensures
        vstd::utf8::encode_utf8(a + b) == vstd::utf8::encode_utf8(a) + vstd::utf8::encode_utf8(b),
    decreases a.len(),
{
    if a.len() == 0 {
        assert(a + b =~= b);
        assert(vstd::utf8::encode_utf8(a) + vstd::utf8::encode_utf8(b) =~= vstd::utf8::encode_utf8(b));
    } else {
        lemma_encode_utf8_concat(a.drop_first(), b);
        assert((a + b).drop_first() =~= a.drop_first() + b);
        assert((a + b)[0] == a[0]);
        let e0 = vstd::utf8::encode_scalar(a[0] as u32);
        assert(vstd::utf8::encode_utf8(a + b) =~= e0 + vstd::utf8::encode_utf8(a.drop_first())
            + vstd::utf8::encode_utf8(b));
    }
}

/// Truncated text fits its limit: the text that `truncate_string` gives
/// is at most `max_len` bytes long in UTF-8.
pub proof fn lemma_truncated_string_within_limit(s: Seq<char>, max_len: usize)
    requires
        vstd::utf8::encode_utf8(s).len() > max_len ==> vstd::utf8::is_char_boundary(
            vstd::utf8::encode_utf8(s),
            cut_len(max_len) as int,
        ),
    ensures
        vstd::utf8::encode_utf8(truncated_string(s, max_len)).len() <= max_len,
{
    let b = vstd::utf8::encode_utf8(s);
    if b.len() > max_len {
        let cut = cut_len(max_len) as int;
        let prefix = b.subrange(0, cut);
        vstd::utf8::encode_utf8_valid_utf8(s);
        vstd::utf8::valid_utf8_split(b, cut);
        vstd::utf8::decode_utf8_encode_utf8(prefix);
        let dots = limited_ellipsis(max_len);
        lemma_encode_utf8_concat(vstd::utf8::decode_utf8(prefix), dots);
        assert(vstd::utf8::is_ascii_chars(dots)) by {
            assert forall|i: int| 0 <= i < dots.len() implies '\0' <= #[trigger] dots[i] <= '\u{7f}' by {
                assert(dots[i] == '.');
            }
        }
        vstd::utf8::is_ascii_chars_encode_utf8(dots);
    }
}

} // verus!
