//! Character and string helpers shared by the whole crate.
//!
//! Strings are modelled by their `Seq<char>` view; the helpers here state
//! what they compute over that view.

use vstd::prelude::*;

verus! {

/// The Unicode `White_Space` property, which `char::is_whitespace` tests.
pub open spec fn is_unicode_whitespace(c: char) -> bool {
    let u = c as u32;
    ||| 0x09 <= u <= 0x0D
    ||| u == 0x20
    ||| u == 0x85
    ||| u == 0xA0
    ||| u == 0x1680
    ||| 0x2000 <= u <= 0x200A
    ||| u == 0x2028
    ||| u == 0x2029
    ||| u == 0x202F
    ||| u == 0x205F
    ||| u == 0x3000
}

/// Whether `char::is_alphanumeric` holds of `c` (the Unicode `Alphabetic`
/// or `Numeric` properties).
pub uninterp spec fn unicode_alphanumeric(c: char) -> bool;

/// What `str::to_lowercase` returns for the given characters.
pub uninterp spec fn unicode_lowercase(s: Seq<char>) -> Seq<char>;

/// Whether `c` is whitespace, as `char::is_whitespace` decides it: true
/// exactly for the characters of the Unicode `White_Space` property.
pub fn char_is_whitespace(c: char) -> (r: bool)
    ensures
        r == is_unicode_whitespace(c),
{
    let u = c as u32;
    (0x09 <= u && u <= 0x0D) || u == 0x20 || u == 0x85 || u == 0xA0 || u == 0x1680 || (0x2000 <= u
        && u <= 0x200A) || u == 0x2028 || u == 0x2029 || u == 0x202F || u == 0x205F || u == 0x3000
}

/// An ASCII letter or digit.
pub open spec fn ascii_alphanumeric(c: char) -> bool {
    ('a' <= c <= 'z') || ('A' <= c <= 'Z') || ('0' <= c <= '9')
}

/// `char::is_alphanumeric`; its result is named `unicode_alphanumeric`.
/// Among ASCII characters, exactly the letters and digits are
/// alphanumeric.
#[verifier::external_body]
pub(crate) fn char_is_alphanumeric(c: char) -> (r: bool)
    ensures
        r == unicode_alphanumeric(c),
        (c as u32) < 128 ==> (r == ascii_alphanumeric(c)),
{
    c.is_alphanumeric()
}

/// The lowercase form of an ASCII character: `A`-`Z` become `a`-`z`, the
/// others stay.
pub open spec fn ascii_lower(c: char) -> char {
    if 'A' <= c <= 'Z' {
        ((c as u32) + 32) as char
    } else {
        c
    }
}

/// `str::to_lowercase`; its result is named `unicode_lowercase`. An ASCII
/// text is lowercased character by character, `A`-`Z` to `a`-`z`.
#[verifier::external_body]
pub(crate) fn str_to_lowercase(s: &str) -> (r: String)
    ensures
        r@ == unicode_lowercase(s@),
        (forall|i: int| 0 <= i < s@.len() ==> (#[trigger] s@[i] as u32) < 128) ==> r@ == s@.map_values(
            |c: char| ascii_lower(c),
        ),
{
    s.to_lowercase()
}

/// `String::push`: appends one character.
#[verifier::external_body]
pub(crate) fn push_char(s: &mut String, c: char)
    ensures
        final(s)@ == old(s)@.push(c),
{
    s.push(c)
}

/// The text that `{:?}` gives for a string: the string in double quotes,
/// with the characters that need it escaped.
pub uninterp spec fn str_debug(s: Seq<char>) -> Seq<char>;

/// `<str as Debug>::fmt`, through `format!("{:?}", ..)`: the quoted and
/// escaped text of `s`, named `str_debug` and not spelled out here.
#[verifier::external_body]
pub(crate) fn debug_text(s: &str) -> (r: String)
    ensures
        r@ == str_debug(s@),
{
    format!("{:?}", s)
}

/// A fresh `String` holding the characters of `s`.
pub fn string_of(s: &str) -> (r: String)
    ensures
        r@ == s@,
{
    let mut r = String::new();
    r.append(s);
    r
}

/// The characters of `s`, in order.
pub fn chars_of(s: &str) -> (r: Vec<char>)
    ensures
        r@ == s@,
{
    let mut r: Vec<char> = Vec::new();
    for c in it: s.chars()
        invariant
            r@ == it.seq().take(it.index() as int),
            it.seq() == s@,
    {
        r.push(c);
        assert(r@ == it.seq().take(it.index() + 1));
    }
    assert(r@ =~= s@);
    r
}

/// The decimal digit for `d < 10`.
pub open spec fn decimal_digit(d: nat) -> char {
    ((48 + d) as u32) as char
}

/// The decimal text of `n`, without leading zeros (`0` for zero), as
/// integers are displayed.
pub open spec fn decimal(n: nat) -> Seq<char>
    decreases n,
{
    if n < 10 {
        seq![decimal_digit(n)]
    } else {
        decimal(n / 10).push(decimal_digit(n % 10))
    }
}

/// The decimal text of a `u32` (what `to_string` gives).
pub fn u32_to_decimal(n: u32) -> (r: String)
    ensures
        r@ == decimal(n as nat),
    decreases n,
{
    let digit = char_of_digit((n % 10) as u8);
    if n < 10 {
        let mut r = String::new();
        push_char(&mut r, digit);
        assert(r@ =~= seq![decimal_digit(n as nat)]);
        r
    } else {
        let mut r = u32_to_decimal(n / 10);
        push_char(&mut r, digit);
        r
    }
}

fn char_of_digit(d: u8) -> (r: char)
    requires
        d < 10,
    ensures
        r == decimal_digit(d as nat),
{
    match d {
        0 => '0',
        1 => '1',
        2 => '2',
        3 => '3',
        4 => '4',
        5 => '5',
        6 => '6',
        7 => '7',
        8 => '8',
        _ => '9',
    }
}

/// `a == b` on strings.
pub fn str_eq(a: &str, b: &str) -> (r: bool)
    ensures
        r == (a@ == b@),
{
    let x = chars_of(a);
    let y = chars_of(b);
    if x.len() != y.len() {
        return false;
    }
    let mut i: usize = 0;
    while i < x.len()
        invariant
            x@ == a@,
            y@ == b@,
            x@.len() == y@.len(),
            i <= x@.len(),
            forall|k: int| 0 <= k < i ==> x@[k] == y@[k],
        decreases x@.len() - i,
    {
        if x[i] != y[i] {
            return false;
        }
        i = i + 1;
    }
    assert(a@ =~= b@);
    true
}

/// Whether `needle` occurs in `hay` starting at position `i`.
pub open spec fn occurs_at(hay: Seq<char>, needle: Seq<char>, i: int) -> bool {
    &&& 0 <= i
    &&& i + needle.len() <= hay.len()
    &&& hay.subrange(i, i + needle.len()) == needle
}

/// Whether `needle` occurs anywhere in `hay` (`str::contains`).
pub open spec fn contains_seq(hay: Seq<char>, needle: Seq<char>) -> bool {
    exists|i: int| occurs_at(hay, needle, i)
}

fn occurs_at_exec(hay: &Vec<char>, needle: &Vec<char>, i: usize) -> (r: bool)
    requires
        i + needle@.len() <= hay@.len(),
    ensures
        r == occurs_at(hay@, needle@, i as int),
{
    let n = needle.len();
    let mut j: usize = 0;
    while j < n
        invariant
            n == needle@.len(),
            i + n <= hay@.len(),
            hay@.len() == hay.len(),
            j <= n,
            forall|k: int| 0 <= k < j ==> hay@[i + k] == needle@[k],
        decreases n - j,
    {
        if hay[i + j] != needle[j] {
            assert(hay@.subrange(i as int, i + n)[j as int] != needle@[j as int]);
            return false;
        }
        j = j + 1;
    }
    assert(hay@.subrange(i as int, i + n) =~= needle@);
    true
}

/// `str::contains` with a string pattern.
pub fn str_contains(hay: &str, needle: &str) -> (r: bool)
    ensures
        r == contains_seq(hay@, needle@),
{
    let h = chars_of(hay);
    let n = chars_of(needle);
    if n.len() > h.len() {
        return false;
    }
    let last = h.len() - n.len();
    let mut i: usize = 0;
    while i < last
        invariant
            h@ == hay@,
            n@ == needle@,
            last == h@.len() - n@.len(),
            i <= last,
            forall|k: int| 0 <= k < i ==> !occurs_at(hay@, needle@, k),
        decreases last - i,
    {
        if occurs_at_exec(&h, &n, i) {
            return true;
        }
        i = i + 1;
    }
    let r = occurs_at_exec(&h, &n, last);
    assert(forall|k: int| last < k ==> !occurs_at(hay@, needle@, k));
    r
}

/// Whether `s` begins with `prefix`.
pub open spec fn starts_with_seq(s: Seq<char>, prefix: Seq<char>) -> bool {
    occurs_at(s, prefix, 0)
}

/// `str::starts_with` with a string pattern.
pub fn str_starts_with(s: &str, prefix: &str) -> (r: bool)
    ensures
        r == starts_with_seq(s@, prefix@),
{
    let h = chars_of(s);
    let p = chars_of(prefix);
    if p.len() > h.len() {
        return false;
    }
    occurs_at_exec(&h, &p, 0)
}

/// Lexicographic order on character sequences, by code point. For Rust
/// strings this is the order of `str`'s `Ord`, since UTF-8 keeps code point
/// order byte by byte.
pub open spec fn seq_le(a: Seq<char>, b: Seq<char>) -> bool
    decreases a.len(),
{
    if a.len() == 0 {
        true
    } else if b.len() == 0 {
        false
    } else if a[0] == b[0] {
        seq_le(a.drop_first(), b.drop_first())
    } else {
        (a[0] as u32) < (b[0] as u32)
    }
}

/// Distinct characters have distinct code points.
pub proof fn lemma_char_code_injective(x: char, y: char)
    ensures
        (x as u32) == (y as u32) ==> x == y,
{
    vstd::utf8::char_u32_cast(x, x as u32);
    vstd::utf8::char_u32_cast(y, y as u32);
}

/// Any two sequences are ordered one way or the other, and only equal
/// sequences both ways.
pub proof fn lemma_seq_le_total(a: Seq<char>, b: Seq<char>)
    ensures
        seq_le(a, b) || seq_le(b, a),
        seq_le(a, b) && seq_le(b, a) ==> a == b,
    decreases a.len(),
{
    if a.len() > 0 && b.len() > 0 {
        lemma_char_code_injective(a[0], b[0]);
    }
    if a.len() > 0 && b.len() > 0 && a[0] == b[0] {
        lemma_seq_le_total(a.drop_first(), b.drop_first());
        if a.drop_first() == b.drop_first() {
            assert(a =~= seq![a[0]] + a.drop_first());
            assert(b =~= seq![b[0]] + b.drop_first());
        }
    } else if a.len() == 0 && b.len() == 0 {
        assert(a =~= b);
    }
}

/// `a <= b` on strings.
pub fn str_le(a: &str, b: &str) -> (r: bool)
    ensures
        r == seq_le(a@, b@),
{
    let x = chars_of(a);
    let y = chars_of(b);
    let mut i: usize = 0;
    assert(a@.skip(0) =~= a@);
    assert(b@.skip(0) =~= b@);
    while i < x.len() && i < y.len()
        invariant
            x@ == a@,
            y@ == b@,
            i <= x@.len(),
            i <= y@.len(),
            forall|k: int| 0 <= k < i ==> x@[k] == y@[k],
            seq_le(a@, b@) == seq_le(a@.skip(i as int), b@.skip(i as int)),
        decreases x@.len() - i,
    {
        let cx = x[i];
        let cy = y[i];
        assert(a@.skip(i as int)[0] == cx);
        assert(b@.skip(i as int)[0] == cy);
        if cx != cy {
            return (cx as u32) < (cy as u32);
        }
        assert(a@.skip(i as int).drop_first() =~= a@.skip(i + 1));
        assert(b@.skip(i as int).drop_first() =~= b@.skip(i + 1));
        i = i + 1;
    }
    i == x.len()
}

/// The words of `s`: its maximal runs of non-whitespace characters, in
/// order (what `str::split_whitespace` yields).
pub open spec fn words(s: Seq<char>) -> Seq<Seq<char>>
    decreases s.len(),
{
    if s.len() == 0 {
        seq![]
    } else {
        let w = words(s.drop_last());
        let c = s.last();
        if is_unicode_whitespace(c) {
            w
        } else if s.len() >= 2 && !is_unicode_whitespace(s[s.len() - 2]) {
            w.update(w.len() - 1, w.last().push(c))
        } else {
            w.push(seq![c])
        }
    }
}

/// The pieces of `parts` joined with `sep` between them (`slice::join`).
pub open spec fn join(parts: Seq<Seq<char>>, sep: Seq<char>) -> Seq<char>
    decreases parts.len(),
{
    if parts.len() == 0 {
        seq![]
    } else if parts.len() == 1 {
        parts[0]
    } else {
        join(parts.drop_last(), sep) + sep + parts.last()
    }
}

/// A word in progress ends the sequence exactly when its last character is
/// not whitespace.
proof fn lemma_words_last(s: Seq<char>)
    requires
        s.len() > 0,
        !is_unicode_whitespace(s.last()),
    ensures
        words(s).len() > 0,
    decreases s.len(),
{
    if s.len() >= 2 && !is_unicode_whitespace(s[s.len() - 2]) {
        lemma_words_last(s.drop_last());
    }
}

/// The words of a text are non-empty and hold no whitespace.
pub proof fn lemma_words_are_words(s: Seq<char>)
    ensures
        forall|i: int|
            0 <= i < words(s).len() ==> is_word(#[trigger] words(s)[i]),
    decreases s.len(),
{
    if s.len() > 0 {
        let t = s.drop_last();
        lemma_words_are_words(t);
        let c = s.last();
        let w = words(t);
        if is_unicode_whitespace(c) {
        } else if s.len() >= 2 && !is_unicode_whitespace(s[s.len() - 2]) {
            lemma_words_last(t);
            let u = w.last().push(c);
            assert(is_word(w[w.len() - 1]));
            assert(is_word(u)) by {
                assert forall|j: int| 0 <= j < u.len() implies !is_unicode_whitespace(#[trigger] u[j]) by {
                    if j < w.last().len() {
                        assert(u[j] == w.last()[j]);
                    }
                }
            }
            assert forall|i: int| 0 <= i < words(s).len() implies is_word(#[trigger] words(s)[i]) by {
                if i < w.len() - 1 {
                    assert(words(s)[i] == w[i]);
                }
            }
        } else {
            assert(is_word(seq![c]));
            assert forall|i: int| 0 <= i < words(s).len() implies is_word(#[trigger] words(s)[i]) by {
                if i < w.len() {
                    assert(words(s)[i] == w[i]);
                }
            }
        }
    }
}

/// A word: a non-empty run of characters without whitespace.
pub open spec fn is_word(u: Seq<char>) -> bool {
    u.len() > 0 && forall|j: int| 0 <= j < u.len() ==> !is_unicode_whitespace(#[trigger] u[j])
}

/// Appending a word to a text starts a new word after whitespace (or at the
/// start), and extends the last word otherwise.
proof fn lemma_words_append_word(t: Seq<char>, u: Seq<char>)
    requires
        is_word(u),
    ensures
        t.len() == 0 || is_unicode_whitespace(t.last()) ==> words(t + u) == words(t).push(u),
        t.len() > 0 && !is_unicode_whitespace(t.last()) ==> {
            &&& words(t).len() > 0
            &&& words(t + u) == words(t).update(words(t).len() - 1, words(t).last() + u)
        },
    decreases u.len(),
{
    let c = u.last();
    let v = u.drop_last();
    assert((t + v).push(c) =~= t + u);
    assert(!is_unicode_whitespace(c));
    if t.len() > 0 && !is_unicode_whitespace(t.last()) {
        lemma_words_last(t);
    }
    if v.len() == 0 {
        assert(t + v =~= t);
        assert(u =~= seq![c]);
        let s = t + u;
        assert(s.drop_last() =~= t);
        if t.len() > 0 {
            assert(s[s.len() - 2] == t.last());
        }
        let w = words(t);
        if t.len() > 0 && !is_unicode_whitespace(t.last()) {
            assert(w.last() + u =~= w.last().push(c));
        }
    } else {
        assert(is_word(v)) by {
            assert forall|j: int| 0 <= j < v.len() implies !is_unicode_whitespace(#[trigger] v[j]) by {
                assert(v[j] == u[j]);
            }
        }
        lemma_words_append_word(t, v);
        let s = t + u;
        assert(s.drop_last() =~= t + v);
        assert(s[s.len() - 2] == v.last());
        assert(!is_unicode_whitespace(v[v.len() - 1]));
        lemma_words_last(t + v);
        let w = words(t);
        if t.len() == 0 || is_unicode_whitespace(t.last()) {
            assert(v.push(c) =~= u);
        } else {
            assert((w.last() + v).push(c) =~= w.last() + u);
        }
    }
}

/// Joining words with single spaces gives a text whose words are those.
pub proof fn lemma_words_of_join(parts: Seq<Seq<char>>)
    requires
        forall|i: int| 0 <= i < parts.len() ==> is_word(#[trigger] parts[i]),
    ensures
        words(join(parts, seq![' '])) == parts,
        parts.len() > 0 ==> join(parts, seq![' ']).len() > 0 && !is_unicode_whitespace(
            join(parts, seq![' ']).last(),
        ),
    decreases parts.len(),
{
    if parts.len() == 0 {
        assert(words(join(parts, seq![' '])) =~= parts);
    } else if parts.len() == 1 {
        let u = parts[0];
        assert(is_word(u));
        lemma_words_append_word(Seq::<char>::empty(), u);
        assert(Seq::<char>::empty() + u =~= u);
        assert(seq![u] =~= parts);
        assert(!is_unicode_whitespace(u[u.len() - 1]));
    } else {
        let front = parts.drop_last();
        assert forall|i: int| 0 <= i < front.len() implies is_word(#[trigger] front[i]) by {
            assert(front[i] == parts[i]);
        }
        lemma_words_of_join(front);
        let j = join(front, seq![' ']);
        let js = j + seq![' '];
        assert(js.drop_last() =~= j);
        assert(is_unicode_whitespace(js.last()));
        assert(words(js) == words(j));
        let u = parts.last();
        assert(is_word(parts[parts.len() - 1]));
        lemma_words_append_word(js, u);
        assert(front.push(u) =~= parts);
        assert((js + u).last() == u.last());
        assert(!is_unicode_whitespace(u[u.len() - 1]));
    }
}

/// Appending a word to a text that ends inside a word adds no word; to an
/// empty text, it makes one.
pub proof fn lemma_words_extend_last(t: Seq<char>, u: Seq<char>)
    requires
        is_word(u),
    ensures
        t.len() > 0 && !is_unicode_whitespace(t.last()) ==> words(t + u).len() == words(t).len(),
        t.len() == 0 ==> words(t + u).len() == 1,
{
    lemma_words_append_word(t, u);
    if t.len() == 0 {
        assert(words(t) =~= Seq::<Seq<char>>::empty());
    }
}

/// Splits `s` into its words.
pub fn split_words(s: &str) -> (r: Vec<String>)
    ensures
        r@.len() == words(s@).len(),
        forall|i: int| 0 <= i < r@.len() ==> #[trigger] r@[i]@ == words(s@)[i],
{
    let cs = chars_of(s);
    let mut out: Vec<String> = Vec::new();
    let mut i: usize = 0;
    while i < cs.len()
        invariant
            cs@ == s@,
            i <= cs@.len(),
            out@.len() == words(s@.take(i as int)).len(),
            forall|k: int| 0 <= k < out@.len() ==> #[trigger] out@[k]@ == words(s@.take(i as int))[k],
        decreases cs@.len() - i,
    {
        let c = cs[i];
        let ghost pre = s@.take(i as int);
        let ghost post = s@.take(i + 1);
        assert(post.drop_last() =~= pre);
        assert(post.last() == c);
        let ws = char_is_whitespace(c);
        if ws {
        } else if i >= 1 && !char_is_whitespace(cs[i - 1]) {
            assert(post[post.len() - 2] == cs@[i - 1]);
            proof {
                lemma_words_last(pre);
            }
            let ghost old_out = out@;
            let mut w = out.pop().unwrap();
            push_char(&mut w, c);
            out.push(w);
            assert(out@ =~= old_out.update(old_out.len() - 1, w));
        } else {
            let mut w = String::new();
            push_char(&mut w, c);
            out.push(w);
            assert(out@.last()@ =~= seq![c]);
        }
        i = i + 1;
    }
    assert(s@.take(cs@.len() as int) =~= s@);
    out
}

/// Joins `parts` with single spaces.
pub fn join_with_space(parts: &Vec<String>, n: usize) -> (r: String)
    requires
        n <= parts@.len(),
    ensures
        r@ == join(parts@.take(n as int).map_values(|p: String| p@), seq![' ']),
{
    let mut r = String::new();
    let mut i: usize = 0;
    while i < n
        invariant
            n <= parts@.len(),
            i <= n,
            r@ == join(parts@.take(i as int).map_values(|p: String| p@), seq![' ']),
        decreases n - i,
    {
        let ghost pre = parts@.take(i as int).map_values(|p: String| p@);
        let ghost post = parts@.take(i + 1).map_values(|p: String| p@);
        assert(post.drop_last() =~= pre);
        assert(post.last() == parts@[i as int]@);
        if i > 0 {
            push_char(&mut r, ' ');
        }
        r.append(parts[i].as_str());
        if i == 0 {
            assert(post.len() == 1);
        }
        i = i + 1;
    }
    r
}

/// Keeping the elements that satisfy `pred` keeps all of a sequence whose
/// elements all satisfy it.
pub proof fn lemma_filter_all<A>(s: Seq<A>, pred: spec_fn(A) -> bool)
    requires
        forall|i: int| 0 <= i < s.len() ==> pred(#[trigger] s[i]),
    ensures
        s.filter(pred) == s,
    decreases s.len(),
{
    reveal_with_fuel(Seq::filter, 1);
    if s.len() > 0 {
        let t = s.drop_last();
        assert forall|i: int| 0 <= i < t.len() implies pred(#[trigger] t[i]) by {
            assert(t[i] == s[i]);
        }
        lemma_filter_all(t, pred);
        assert(pred(s[s.len() - 1]));
        assert(t.push(s.last()) =~= s);
    } else {
        assert(s.filter(pred) =~= s);
    }
}

} // verus!
