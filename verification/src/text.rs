//! Characters, words and numbers of the relay's text.
use vstd::prelude::*;
use vstd::utf8::*;

verus! {

// ---------------------------------------------------------------------------
// Strings of std
// ---------------------------------------------------------------------------

/// `String::push` of std: the character is appended to the end of the string.
pub assume_specification[ String::push ](s: &mut String, c: char)
    ensures
        final(s)@ == old(s)@.push(c),
;

/// Calls `String::from_utf8` of std. It yields the decoded text exactly when
/// the bytes are valid UTF-8.
#[verifier::external_body]
pub(crate) fn string_of_utf8(bytes: Vec<u8>) -> (r: Option<String>)
    ensures
        r is Some <==> valid_utf8(bytes@),
        r matches Some(s) ==> s@ == decode_utf8(bytes@),
{
    String::from_utf8(bytes).ok()
}

/// The characters of `s`, in order.
pub fn chars_of(s: &str) -> (v: Vec<char>)
    ensures
        v@ == s@,
{
    let mut v: Vec<char> = Vec::new();
    for c in it: s.chars()
        invariant
            it.seq() == s@,
            v@ == it.seq().take(it.index()),
    {
        proof {
            assert(it.seq().take(it.index() + 1) == it.seq().take(it.index()).push(c));
        }
        v.push(c);
    }
    proof {
        assert(s@.take(s@.len() as int) == s@);
    }
    v
}

/// The string made of `chars[from..to]`.
pub fn string_of(chars: &Vec<char>, from: usize, to: usize) -> (s: String)
    requires
        from <= to <= chars@.len(),
    ensures
        s@ == chars@.subrange(from as int, to as int),
{
    let mut s = String::new();
    let mut i: usize = from;
    proof {
        assert(s@ == chars@.subrange(from as int, from as int));
    }
    while i < to
        invariant
            from <= i <= to <= chars@.len(),
            s@ == chars@.subrange(from as int, i as int),
        decreases to - i,
    {
        s.push(chars[i]);
        proof {
            assert(chars@.subrange(from as int, i + 1) == chars@.subrange(
                from as int,
                i as int,
            ).push(chars@[i as int]));
        }
        i = i + 1;
    }
    s
}

/// Whether two strings hold the same characters.
pub fn same_text(a: &str, b: &str) -> (r: bool)
    ensures
        r == (a@ == b@),
{
    let x = chars_of(a);
    let y = chars_of(b);
    if x.len() != y.len() {
        return false;
    }
    let mut i: usize = 0;
    while i < x.len()
        invariant
            x@ == a@,
            y@ == b@,
            x@.len() == y@.len(),
            i <= x@.len(),
            forall|j: int| 0 <= j < i ==> x@[j] == y@[j],
        decreases x@.len() - i,
    {
        if x[i] != y[i] {
            return false;
        }
        i = i + 1;
    }
    proof {
        assert(a@ == b@);
    }
    true
}

// ---------------------------------------------------------------------------
// Order of strings
// ---------------------------------------------------------------------------

/// Whether `a` comes strictly before `b` in dictionary order of the bytes.
pub open spec fn bytes_before(a: Seq<u8>, b: Seq<u8>) -> bool
    decreases a.len(),
{
    if b.len() == 0 {
        false
    } else if a.len() == 0 {
        true
    } else {
        a[0] < b[0] || (a[0] == b[0] && bytes_before(a.drop_first(), b.drop_first()))
    }
}

/// Whether `a` comes strictly before `b` in the order of strings: dictionary
/// order of their UTF-8 bytes.
pub open spec fn text_before(a: Seq<char>, b: Seq<char>) -> bool {
    bytes_before(encode_utf8(a), encode_utf8(b))
}

/// Whether `a` sorts strictly before `b`.
pub fn sorts_before(a: &str, b: &str) -> (r: bool)
    ensures
        r == text_before(a@, b@),
{
    let x = a.as_bytes();
    let y = b.as_bytes();
    let mut i: usize = 0;
    proof {
        assert(x@.skip(0) == x@);
        assert(y@.skip(0) == y@);
    }
    while i < x.len() && i < y.len()
        invariant
            x@ == encode_utf8(a@),
            y@ == encode_utf8(b@),
            i <= x@.len(),
            i <= y@.len(),
            text_before(a@, b@) == bytes_before(x@.skip(i as int), y@.skip(i as int)),
        decreases x@.len() - i,
    {
        proof {
            assert(x@.skip(i as int).drop_first() == x@.skip(i + 1));
            assert(y@.skip(i as int).drop_first() == y@.skip(i + 1));
        }
        if x[i] < y[i] {
            return true;
        }
        if y[i] < x[i] {
            return false;
        }
        i = i + 1;
    }
    i < y.len()
}

/// No string sorts before itself.
pub proof fn lemma_bytes_before_irreflexive(a: Seq<u8>)
    ensures
        !bytes_before(a, a),
    decreases a.len(),
{
    if a.len() > 0 {
        lemma_bytes_before_irreflexive(a.drop_first());
    }
}

/// The order of strings is transitive.
pub proof fn lemma_bytes_before_transitive(a: Seq<u8>, b: Seq<u8>, c: Seq<u8>)
    requires
        bytes_before(a, b),
        bytes_before(b, c),
    ensures
        bytes_before(a, c),
    decreases a.len(),
{
    if a.len() > 0 && a[0] == b[0] && b[0] == c[0] {
        lemma_bytes_before_transitive(a.drop_first(), b.drop_first(), c.drop_first());
    }
}

/// Two different strings are ordered one way or the other.
pub proof fn lemma_bytes_before_total(a: Seq<u8>, b: Seq<u8>)
    requires
        a != b,
    ensures
        bytes_before(a, b) || bytes_before(b, a),
    decreases a.len(),
{
    if a.len() == 0 && b.len() == 0 {
        assert(a == b);
    } else if a.len() > 0 && b.len() > 0 && a[0] == b[0] {
        if a.drop_first() == b.drop_first() {
            assert(a == seq![a[0]] + a.drop_first());
            assert(b == seq![b[0]] + b.drop_first());
        }
        lemma_bytes_before_total(a.drop_first(), b.drop_first());
    }
}

// ---------------------------------------------------------------------------
// White space and words
// ---------------------------------------------------------------------------

/// The characters with the Unicode property `White_Space`.
pub open spec fn is_space(c: char) -> bool {
    let u = c as u32;
    ||| 0x9 <= u <= 0xd
    ||| u == 0x20
    ||| u == 0x85
    ||| u == 0xa0
    ||| u == 0x1680
    ||| 0x2000 <= u <= 0x200a
    ||| u == 0x2028
    ||| u == 0x2029
    ||| u == 0x202f
    ||| u == 0x205f
    ||| u == 0x3000
}

/// Whether `c` is white space.
pub fn is_white_space(c: char) -> (r: bool)
    ensures
        r == is_space(c),
{
    let u: u32 = c as u32;
    (0x9 <= u && u <= 0xd) || u == 0x20 || u == 0x85 || u == 0xa0 || u == 0x1680 || (0x2000 <= u
        && u <= 0x200a) || u == 0x2028 || u == 0x2029 || u == 0x202f || u == 0x205f || u == 0x3000
}

/// The length of the longest prefix of `s` without white space.
pub open spec fn word_len(s: Seq<char>) -> nat
    decreases s.len(),
{
    if s.len() == 0 || is_space(s[0]) {
        0
    } else {
        1 + word_len(s.drop_first())
    }
}

pub proof fn lemma_word_len(s: Seq<char>)
    ensures
        word_len(s) <= s.len(),
        forall|i: int| 0 <= i < word_len(s) ==> !is_space(#[trigger] s[i]),
        word_len(s) < s.len() ==> is_space(s[word_len(s) as int]),
    decreases s.len(),
{
    if s.len() > 0 && !is_space(s[0]) {
        let t = s.drop_first();
        lemma_word_len(t);
        assert forall|i: int| 0 <= i < word_len(s) implies !is_space(#[trigger] s[i]) by {
            if i > 0 {
                assert(s[i] == t[i - 1]);
            }
        }
        if word_len(s) < s.len() {
            assert(s[word_len(s) as int] == t[word_len(t) as int]);
        }
    }
}

/// The words of `s`: its maximal runs without white space, in order.
pub open spec fn words(s: Seq<char>) -> Seq<Seq<char>>
    decreases s.len(),
{
    if s.len() == 0 {
        seq![]
    } else if is_space(s[0]) {
        words(s.drop_first())
    } else {
        proof {
            lemma_word_len(s);
        }
        seq![s.take(word_len(s) as int)] + words(s.skip(word_len(s) as int))
    }
}

/// The words of `s`.
pub fn split_words(s: &str) -> (v: Vec<String>)
    ensures
        v@.map_values(|w: String| w@) == words(s@),
{
    let chars = chars_of(s);
    let mut v: Vec<String> = Vec::new();
    let mut i: usize = 0;
    proof {
        assert(chars@.skip(0) == chars@);
        assert(v@.map_values(|w: String| w@) + words(s@) == words(s@));
    }
    while i < chars.len()
        invariant
            chars@ == s@,
            i <= chars@.len(),
            v@.map_values(|w: String| w@) + words(chars@.skip(i as int)) == words(s@),
        decreases chars@.len() - i,
    {
        let ghost rest = chars@.skip(i as int);
        proof {
            lemma_word_len(rest);
            assert(rest.drop_first() == chars@.skip(i + 1));
        }
        if is_white_space(chars[i]) {
            i = i + 1;
        } else {
            let start: usize = i;
            while i < chars.len() && !is_white_space(chars[i])
                invariant
                    start <= i <= chars@.len(),
                    rest == chars@.skip(start as int),
                    word_len(rest) == (i - start) + word_len(chars@.skip(i as int)),
                decreases chars@.len() - i,
            {
                proof {
                    assert(chars@.skip(i as int).drop_first() == chars@.skip(i + 1));
                }
                i = i + 1;
            }
            let word = string_of(&chars, start, i);
            let ghost before = v@;
            v.push(word);
            proof {
                let n = word_len(rest) as int;
                assert(n == i - start);
                assert(word@ == rest.take(n));
                assert(rest.skip(n) == chars@.skip(i as int));
                let f = |w: String| w@;
                assert(v@.map_values(f) == before.map_values(f).push(word@));
                assert(v@.map_values(f) + words(chars@.skip(i as int)) == before.map_values(f) + (
                seq![word@] + words(chars@.skip(i as int))));
            }
        }
    }
    proof {
        assert(chars@.skip(i as int) == Seq::<char>::empty());
        assert(v@.map_values(|w: String| w@) + words(chars@.skip(i as int)) == v@.map_values(
            |w: String| w@,
        ));
    }
    v
}

/// A run of characters without white space that stands before the end of the
/// text, or before a space, is its first word.
pub proof fn lemma_first_word(w: Seq<char>, rest: Seq<char>)
    requires
        w.len() > 0,
        forall|i: int| 0 <= i < w.len() ==> !is_space(#[trigger] w[i]),
        rest.len() > 0 ==> is_space(rest[0]),
    ensures
        words(w + rest) == seq![w] + words(rest),
{
    let s = w + rest;
    lemma_word_len(s);
    let n = word_len(s) as int;
    if n < w.len() {
        assert(s[n] == w[n]);
    } else if n > w.len() {
        assert(s[w.len() as int] == rest[0]);
    }
    assert(s[0] == w[0]);
    assert(s.take(n) == w);
    assert(s.skip(n) == rest);
}

/// White space in front of a text adds no word.
pub proof fn lemma_leading_space(c: char, rest: Seq<char>)
    requires
        is_space(c),
    ensures
        words(seq![c] + rest) == words(rest),
{
    assert((seq![c] + rest).drop_first() == rest);
}

// ---------------------------------------------------------------------------
// Trimming
// ---------------------------------------------------------------------------

/// `s` without the characters at its front that satisfy `p`.
pub open spec fn drop_front(s: Seq<char>, p: spec_fn(char) -> bool) -> Seq<char>
    decreases s.len(),
{
    if s.len() > 0 && p(s[0]) {
        drop_front(s.drop_first(), p)
    } else {
        s
    }
}

/// `s` without the characters at its end that satisfy `p`.
pub open spec fn drop_back(s: Seq<char>, p: spec_fn(char) -> bool) -> Seq<char>
    decreases s.len(),
{
    if s.len() > 0 && p(s.last()) {
        drop_back(s.drop_last(), p)
    } else {
        s
    }
}

/// `s` without white space at either end.
pub open spec fn trimmed(s: Seq<char>) -> Seq<char> {
    drop_back(drop_front(s, |c: char| is_space(c)), |c: char| is_space(c))
}

/// The position of the first character of `v[from..to]` that is not white
/// space.
pub fn skip_spaces(v: &Vec<char>, from: usize, to: usize) -> (r: usize)
    requires
        from <= to <= v@.len(),
    ensures
        from <= r <= to,
        v@.subrange(r as int, to as int) == drop_front(
            v@.subrange(from as int, to as int),
            |c: char| is_space(c),
        ),
{
    let mut i: usize = from;
    while i < to && is_white_space(v[i])
        invariant
            from <= i <= to <= v@.len(),
            drop_front(v@.subrange(i as int, to as int), |c: char| is_space(c)) == drop_front(
                v@.subrange(from as int, to as int),
                |c: char| is_space(c),
            ),
        decreases to - i,
    {
        proof {
            assert(v@.subrange(i as int, to as int).drop_first() == v@.subrange(i + 1, to as int));
        }
        i = i + 1;
    }
    i
}

/// The end of `v[from..to]` without its trailing white space.
pub fn drop_spaces(v: &Vec<char>, from: usize, to: usize) -> (r: usize)
    requires
        from <= to <= v@.len(),
    ensures
        from <= r <= to,
        v@.subrange(from as int, r as int) == drop_back(
            v@.subrange(from as int, to as int),
            |c: char| is_space(c),
        ),
{
    let mut i: usize = to;
    while i > from && is_white_space(v[i - 1])
        invariant
            from <= i <= to <= v@.len(),
            drop_back(v@.subrange(from as int, i as int), |c: char| is_space(c)) == drop_back(
                v@.subrange(from as int, to as int),
                |c: char| is_space(c),
            ),
        decreases i,
    {
        proof {
            assert(v@.subrange(from as int, i as int).drop_last() == v@.subrange(
                from as int,
                i - 1,
            ));
        }
        i = i - 1;
    }
    i
}

// ---------------------------------------------------------------------------
// Decimal numbers
// ---------------------------------------------------------------------------

/// Whether `c` is one of `0` to `9`.
pub open spec fn is_digit(c: char) -> bool {
    '0' <= c <= '9'
}

/// The number that a run of digits stands for.
pub open spec fn number_of(s: Seq<char>) -> nat
    decreases s.len(),
{
    if s.len() == 0 {
        0
    } else {
        number_of(s.drop_last()) * 10 + (s.last() as u32 - 48) as nat
    }
}

/// The digit that stands for `n`.
pub open spec fn digit_of(n: nat) -> char {
    (48 + n) as char
}

/// The decimal digits of `n`, without leading zeros.
pub open spec fn decimal(n: nat) -> Seq<char>
    decreases n,
{
    if n < 10 {
        seq![digit_of(n)]
    } else {
        decimal(n / 10).push(digit_of(n % 10))
    }
}

/// The decimal digits of `n`.
pub fn decimal_text(n: u64) -> (s: String)
    ensures
        s@ == decimal(n as nat),
    decreases n,
{
    if n < 10 {
        let mut s = String::new();
        s.push((48u8 + n as u8) as char);
        proof {
            assert(s@ == seq![digit_of(n as nat)]);
        }
        s
    } else {
        let mut s = decimal_text(n / 10);
        s.push((48u8 + (n % 10) as u8) as char);
        s
    }
}

/// A number reads back from its decimal digits.
pub proof fn law_decimal_reads_back(n: nat)
    ensures
        decimal(n).len() > 0,
        forall|i: int| 0 <= i < decimal(n).len() ==> is_digit(#[trigger] decimal(n)[i]),
        number_of(decimal(n)) == n,
    decreases n,
{
    if n < 10 {
        let s = seq![digit_of(n)];
        assert(number_of(s) == n) by {
            reveal_with_fuel(number_of, 2);
        }
    } else {
        law_decimal_reads_back(n / 10);
        let s = decimal(n / 10);
        let t = s.push(digit_of(n % 10));
        assert(t.drop_last() == s);
        assert(number_of(t) == number_of(s) * 10 + n % 10);
    }
}

// ---------------------------------------------------------------------------
// Laws
// ---------------------------------------------------------------------------

/// White space is these twenty-five characters and no others.
pub proof fn law_white_space(c: char)
    ensures
        is_space(c) <==> (c == '\t' || c == '\n' || c == '\u{b}' || c == '\u{c}' || c == '\r' || c
            == ' ' || c == '\u{85}' || c == '\u{a0}' || c == '\u{1680}' || c == '\u{2000}' || c
            == '\u{2001}' || c == '\u{2002}' || c == '\u{2003}' || c == '\u{2004}' || c
            == '\u{2005}' || c == '\u{2006}' || c == '\u{2007}' || c == '\u{2008}' || c
            == '\u{2009}' || c == '\u{200a}' || c == '\u{2028}' || c == '\u{2029}' || c
            == '\u{202f}' || c == '\u{205f}' || c == '\u{3000}'),
{
}

/// A text of nothing but white space has no words.
pub proof fn law_blank_text_has_no_words(s: Seq<char>)
    requires
        forall|i: int| 0 <= i < s.len() ==> is_space(#[trigger] s[i]),
    ensures
        words(s) == Seq::<Seq<char>>::empty(),
    decreases s.len(),
{
    if s.len() > 0 {
        assert(forall|i: int| 0 <= i < s.drop_first().len() ==> s.drop_first()[i] == s[i + 1]);
        law_blank_text_has_no_words(s.drop_first());
    }
}

/// A run without white space, with any white space in front and either the end
/// or white space behind, is the first word, and the other words are those of
/// what comes behind.
pub proof fn law_first_word(gap: Seq<char>, w: Seq<char>, rest: Seq<char>)
    requires
        forall|i: int| 0 <= i < gap.len() ==> is_space(#[trigger] gap[i]),
        w.len() > 0,
        forall|i: int| 0 <= i < w.len() ==> !is_space(#[trigger] w[i]),
        rest.len() > 0 ==> is_space(rest[0]),
    ensures
        words(gap + w + rest) == seq![w] + words(rest),
    decreases gap.len(),
{
    if gap.len() == 0 {
        assert(gap + w + rest == w + rest);
        lemma_first_word(w, rest);
    } else {
        let less = gap.drop_first();
        assert(forall|i: int| 0 <= i < less.len() ==> less[i] == gap[i + 1]);
        law_first_word(less, w, rest);
        assert((gap + w + rest).drop_first() == less + w + rest);
        assert((gap + w + rest)[0] == gap[0]);
    }
}

/// Every word has characters, and none of them is white space.
pub proof fn law_words_are_solid(s: Seq<char>)
    ensures
        forall|k: int| 0 <= k < words(s).len() ==> (#[trigger] words(s)[k]).len() > 0,
        forall|k: int, i: int|
            0 <= k < words(s).len() && 0 <= i < words(s)[k].len() ==> !is_space(
                #[trigger] words(s)[k][i],
            ),
    decreases s.len(),
{
    if s.len() == 0 {
        assert(words(s).len() == 0);
    } else {
        lemma_word_len(s);
        if is_space(s[0]) {
            law_words_are_solid(s.drop_first());
            assert(words(s) == words(s.drop_first()));
        } else {
            let n = word_len(s) as int;
            let w = s.take(n);
            let more = words(s.skip(n));
            law_words_are_solid(s.skip(n));
            assert(words(s) == seq![w] + more);
            assert forall|k: int| 0 <= k < words(s).len() implies (#[trigger] words(s)[k]).len()
                > 0 by {
                if k > 0 {
                    assert(words(s)[k] == more[k - 1]);
                }
            }
            assert forall|k: int, i: int|
                0 <= k < words(s).len() && 0 <= i < words(s)[k].len() implies !is_space(
                #[trigger] words(s)[k][i],
            ) by {
                if k > 0 {
                    assert(words(s)[k] == more[k - 1]);
                    assert(!is_space(more[k - 1][i]));
                } else {
                    assert(words(s)[k] == w);
                    assert(w[i] == s[i]);
                }
            }
        }
    }
}

/// One text sorts before another exactly where the other begins with all of
/// its bytes and has more, or where the first byte in which they differ is the
/// smaller one.
pub proof fn law_order_of_texts(a: Seq<char>, b: Seq<char>)
    ensures
        text_before(a, b) <==> exists|k: int|
            0 <= k <= encode_utf8(a).len() && k < encode_utf8(b).len() && #[trigger] encode_utf8(
                a,
            ).take(k) == encode_utf8(b).take(k) && (k < encode_utf8(a).len() ==> encode_utf8(a)[k]
                < encode_utf8(b)[k]),
{
    let x = encode_utf8(a);
    let y = encode_utf8(b);
    if text_before(a, b) {
        let k = lemma_where_bytes_differ(x, y);
        assert(x.take(k) == y.take(k));
    }
    if exists|k: int|
        0 <= k <= x.len() && k < y.len() && #[trigger] x.take(k) == y.take(k) && (k < x.len()
            ==> x[k] < y[k]) {
        let k = choose|k: int|
            0 <= k <= x.len() && k < y.len() && #[trigger] x.take(k) == y.take(k) && (k < x.len()
                ==> x[k] < y[k]);
        lemma_bytes_differ_at(x, y, k);
    }
}

/// Where the byte stands that puts `x` before `y`.
proof fn lemma_where_bytes_differ(x: Seq<u8>, y: Seq<u8>) -> (k: int)
    requires
        bytes_before(x, y),
    ensures
        0 <= k <= x.len(),
        k < y.len(),
        x.take(k) == y.take(k),
        k < x.len() ==> x[k] < y[k],
    decreases x.len(),
{
    if x.len() == 0 || x[0] < y[0] {
        assert(x.take(0) == y.take(0));
        0
    } else {
        let j = lemma_where_bytes_differ(x.drop_first(), y.drop_first());
        assert(x.take(j + 1) == seq![x[0]] + x.drop_first().take(j));
        assert(y.take(j + 1) == seq![y[0]] + y.drop_first().take(j));
        j + 1
    }
}

/// A smaller byte at `k`, with the same bytes before, puts `x` before `y`.
proof fn lemma_bytes_differ_at(x: Seq<u8>, y: Seq<u8>, k: int)
    requires
        0 <= k <= x.len(),
        k < y.len(),
        x.take(k) == y.take(k),
        k < x.len() ==> x[k] < y[k],
    ensures
        bytes_before(x, y),
    decreases k,
{
    if k > 0 {
        assert(x.take(k)[0] == x[0] && y.take(k)[0] == y[0]);
        assert(x.drop_first().take(k - 1) == x.take(k).drop_first());
        assert(y.drop_first().take(k - 1) == y.take(k).drop_first());
        lemma_bytes_differ_at(x.drop_first(), y.drop_first(), k - 1);
    }
}

/// What is cut off the front of a text satisfies the condition, and what is
/// left does not begin with such a character.
pub proof fn law_front_is_dropped(front: Seq<char>, rest: Seq<char>, p: spec_fn(char) -> bool)
    requires
        forall|i: int| 0 <= i < front.len() ==> p(#[trigger] front[i]),
        rest.len() > 0 ==> !p(rest[0]),
    ensures
        drop_front(front + rest, p) == rest,
    decreases front.len(),
{
    if front.len() == 0 {
        assert(front + rest == rest);
    } else {
        let less = front.drop_first();
        assert(forall|i: int| 0 <= i < less.len() ==> less[i] == front[i + 1]);
        law_front_is_dropped(less, rest, p);
        assert((front + rest).drop_first() == less + rest);
        assert((front + rest)[0] == front[0]);
    }
}

/// What is cut off the end of a text satisfies the condition, and what is left
/// does not end with such a character.
pub proof fn law_back_is_dropped(rest: Seq<char>, back: Seq<char>, p: spec_fn(char) -> bool)
    requires
        forall|i: int| 0 <= i < back.len() ==> p(#[trigger] back[i]),
        rest.len() > 0 ==> !p(rest.last()),
    ensures
        drop_back(rest + back, p) == rest,
    decreases back.len(),
{
    if back.len() == 0 {
        assert(rest + back == rest);
    } else {
        let less = back.drop_last();
        assert(forall|i: int| 0 <= i < less.len() ==> less[i] == back[i]);
        law_back_is_dropped(rest, less, p);
        assert((rest + back).drop_last() == rest + less);
        assert((rest + back).last() == back.last());
        assert(back.last() == back[back.len() - 1]);
    }
}

/// White space on both sides of a text is cut off, and nothing else.
pub proof fn law_trimmed(front: Seq<char>, body: Seq<char>, back: Seq<char>)
    requires
        forall|i: int| 0 <= i < front.len() ==> is_space(#[trigger] front[i]),
        forall|i: int| 0 <= i < back.len() ==> is_space(#[trigger] back[i]),
        body.len() > 0 ==> !is_space(body[0]) && !is_space(body.last()),
    ensures
        trimmed(front + body + back) == body,
{
    let space = |c: char| is_space(c);
    if body.len() > 0 {
        assert(front + body + back == front + (body + back));
        assert((body + back)[0] == body[0]);
        law_front_is_dropped(front, body + back, space);
        law_back_is_dropped(body, back, space);
    } else {
        let all = front + body + back;
        assert(all == (front + back) + Seq::<char>::empty());
        law_front_is_dropped(front + back, Seq::empty(), space);
    }
}

/// Digits are counted from the right: a digit behind others makes ten times
/// their number and its own value.
pub proof fn law_value_of_digits(s: Seq<char>, d: char)
    requires
        '0' <= d <= '9',
    ensures
        number_of(Seq::empty()) == 0,
        number_of(s.push(d)) == 10 * number_of(s) + (d as int - '0' as int),
        is_digit(d),
{
    assert(s.push(d).drop_last() == s);
}

/// Only `0` to `9` are digits.
pub proof fn law_digits(c: char)
    ensures
        is_digit(c) <==> (c == '0' || c == '1' || c == '2' || c == '3' || c == '4' || c == '5' || c
            == '6' || c == '7' || c == '8' || c == '9'),
{
}

/// A number is written with digits alone, and begins with a zero only where it
/// is zero.
pub proof fn law_decimal_has_no_leading_zero(n: nat)
    ensures
        forall|i: int| 0 <= i < decimal(n).len() ==> '0' <= #[trigger] decimal(n)[i] <= '9',
        decimal(n).len() > 0,
        n > 0 ==> decimal(n)[0] != '0',
        n == 0 ==> decimal(n) == seq!['0'],
    decreases n,
{
    law_decimal_reads_back(n);
    if n >= 10 {
        law_decimal_has_no_leading_zero(n / 10);
        assert(decimal(n)[0] == decimal(n / 10)[0]);
        assert forall|i: int| 0 <= i < decimal(n).len() implies '0' <= #[trigger] decimal(n)[i]
            <= '9' by {
            assert(is_digit(decimal(n)[i]));
        }
    }
}

} // verus!
