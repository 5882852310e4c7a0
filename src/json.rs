//! Canonical compact JSON text for string values.
use vstd::prelude::*;

verus! {

/// Lower-case hexadecimal digit of a value below sixteen.
pub open spec fn hex_digit(d: nat) -> char {
    if d < 10 {
        (48 + d) as char
    } else {
        (87 + d) as char
    }
}

/// The escaped form of one character inside a JSON string literal.
pub open spec fn escape_char(c: char) -> Seq<char> {
    if c == '"' {
        seq!['\\', '"']
    } else if c == '\\' {
        seq!['\\', '\\']
    } else if c == '\n' {
        seq!['\\', 'n']
    } else if c == '\r' {
        seq!['\\', 'r']
    } else if c == '\t' {
        seq!['\\', 't']
    } else if c == '\x08' {
        seq!['\\', 'b']
    } else if c == '\x0c' {
        seq!['\\', 'f']
    } else if (c as u32) < 32 {
        seq!['\\', 'u', '0', '0', hex_digit((c as u32) as nat / 16), hex_digit((c as u32) as nat % 16)]
    } else {
        seq![c]
    }
}

/// The escaped body of a JSON string literal.
pub open spec fn escape(s: Seq<char>) -> Seq<char>
    decreases s.len(),
{
    if s.len() == 0 {
        Seq::empty()
    } else {
        escape(s.drop_last()) + escape_char(s.last())
    }
}

/// A JSON string literal holding `s`.
pub open spec fn quoted(s: Seq<char>) -> Seq<char> {
    seq!['"'] + escape(s) + seq!['"']
}

/// The value of a lower-case hexadecimal digit.
pub open spec fn hex_value(c: char) -> Option<nat> {
    let u = c as u32;
    if 48 <= u < 58 {
        Some((u - 48) as nat)
    } else if 97 <= u < 103 {
        Some((u - 87) as nat)
    } else {
        None
    }
}

/// Reads one escape sequence at the start of `s`: the character it stands
/// for and its length.
pub open spec fn unescape_one(s: Seq<char>) -> Option<(char, nat)> {
    if s.len() < 2 || s[0] != '\\' {
        None
    } else if s[1] == '"' {
        Some(('"', 2))
    } else if s[1] == '\\' {
        Some(('\\', 2))
    } else if s[1] == 'n' {
        Some(('\n', 2))
    } else if s[1] == 'r' {
        Some(('\r', 2))
    } else if s[1] == 't' {
        Some(('\t', 2))
    } else if s[1] == 'b' {
        Some(('\x08', 2))
    } else if s[1] == 'f' {
        Some(('\x0c', 2))
    } else if s[1] == 'u' && s.len() >= 6 && s[2] == '0' && s[3] == '0' && hex_value(s[4]) is Some
        && hex_value(s[5]) is Some {
        Some((((16 * hex_value(s[4])->0 + hex_value(s[5])->0) as u32) as char, 6))
    } else {
        None
    }
}

/// Reads the rest of a JSON string literal whose opening quote has been read:
/// the characters it holds, and how many characters it takes up to and
/// including the closing quote.
pub open spec fn unquote_rest(s: Seq<char>) -> Option<(Seq<char>, nat)>
    decreases s.len(),
{
    if s.len() == 0 {
        None
    } else if s[0] == '"' {
        Some((Seq::empty(), 1))
    } else if s[0] == '\\' {
        match unescape_one(s) {
            Some((c, k)) => match unquote_rest(s.subrange(k as int, s.len() as int)) {
                Some((t, j)) => Some((seq![c] + t, j + k)),
                None => None,
            },
            None => None,
        }
    } else {
        match unquote_rest(s.drop_first()) {
            Some((t, j)) => Some((seq![s[0]] + t, j + 1)),
            None => None,
        }
    }
}

/// Reads a JSON string literal at the start of `s`: the characters it holds
/// and its length.
pub open spec fn parse_quoted(s: Seq<char>) -> Option<(Seq<char>, nat)> {
    if s.len() == 0 || s[0] != '"' {
        None
    } else {
        match unquote_rest(s.drop_first()) {
            Some((t, j)) => Some((t, j + 1)),
            None => None,
        }
    }
}

proof fn lemma_escape_concat(a: Seq<char>, b: Seq<char>)
    ensures
        escape(a + b) == escape(a) + escape(b),
    decreases b.len(),
{
    if b.len() == 0 {
        assert(a + b =~= a);
        assert(escape(a) + escape(b) =~= escape(a));
    } else {
        assert((a + b).drop_last() =~= a + b.drop_last());
        assert((a + b).last() == b.last());
        lemma_escape_concat(a, b.drop_last());
        assert(escape(a + b) =~= escape(a) + escape(b));
    }
}

proof fn lemma_escape_front(x: Seq<char>)
    requires
        x.len() > 0,
    ensures
        escape(x) == escape_char(x[0]) + escape(x.drop_first()),
{
    assert(x =~= seq![x[0]] + x.drop_first());
    lemma_escape_concat(seq![x[0]], x.drop_first());
    let one = seq![x[0]];
    assert(one.drop_last() =~= Seq::<char>::empty());
    assert(one.last() == x[0]);
    assert(escape(one.drop_last()) == Seq::<char>::empty());
    assert(escape(one) == escape(one.drop_last()) + escape_char(one.last()));
    assert(escape(one) =~= escape_char(x[0]));
}

proof fn lemma_hex(d: nat)
    requires
        d < 16,
    ensures
        hex_value(hex_digit(d)) == Some(d),
{
}

proof fn lemma_unquote_char(c: char, t: Seq<char>)
    ensures
        unquote_rest(t) matches Some((y, k)) ==> unquote_rest(escape_char(c) + t) == Some(
            (seq![c] + y, k + escape_char(c).len()),
        ),
{
    let s = escape_char(c) + t;
    let n = escape_char(c).len();
    assert(s.subrange(n as int, s.len() as int) =~= t);
    if c != '"' && c != '\\' && c != '\n' && c != '\r' && c != '\t' && c != '\x08' && c != '\x0c' && (c as u32) < 32 {
        let u = c as u32;
        lemma_hex(u as nat / 16);
        lemma_hex(u as nat % 16);
        assert(s[4] == hex_digit(u as nat / 16));
        assert(s[5] == hex_digit(u as nat % 16));
        assert((16 * (u as nat / 16) + u as nat % 16) as u32 == u);
        assert(unescape_one(s) == Some((c, 6nat)));
    } else if (c as u32) >= 32 && c != '"' && c != '\\' {
        assert(s.drop_first() =~= t);
    }
}

proof fn lemma_unquote_escape(x: Seq<char>, rest: Seq<char>)
    ensures
        unquote_rest(escape(x) + seq!['"'] + rest) == Some((x, escape(x).len() + 1)),
    decreases x.len(),
{
    if x.len() == 0 {
        assert(escape(x) + seq!['"'] + rest =~= seq!['"'] + rest);
        assert(x =~= Seq::<char>::empty());
    } else {
        lemma_escape_front(x);
        lemma_unquote_escape(x.drop_first(), rest);
        let t = escape(x.drop_first()) + seq!['"'] + rest;
        lemma_unquote_char(x[0], t);
        assert(escape(x) + seq!['"'] + rest =~= escape_char(x[0]) + t);
        assert(seq![x[0]] + x.drop_first() =~= x);
    }
}

/// A JSON string literal reads back as the characters it was written from,
/// whatever follows it.
pub proof fn lemma_parse_quoted(x: Seq<char>, rest: Seq<char>)
    ensures
        parse_quoted(quoted(x) + rest) == Some((x, quoted(x).len())),
{
    lemma_unquote_escape(x, rest);
    assert((quoted(x) + rest).drop_first() =~= escape(x) + seq!['"'] + rest);
}

/// Reads the rest of an array of string literals after one of its items: more
/// items, each after a comma, then the closing bracket. Gives the items and
/// the length read.
pub open spec fn parse_more_quoted(s: Seq<char>) -> Option<(Seq<Seq<char>>, nat)>
    decreases s.len(),
{
    if s.len() == 0 {
        None
    } else if s[0] == ']' {
        Some((Seq::empty(), 1))
    } else if s[0] == ',' {
        match parse_quoted(s.drop_first()) {
            Some((x, k)) => if 1 <= k && 1 + k <= s.len() {
                match parse_more_quoted(s.subrange(1 + k as int, s.len() as int)) {
                    Some((xs, j)) => Some((seq![x] + xs, 1 + k + j)),
                    None => None,
                }
            } else {
                None
            },
            None => None,
        }
    } else {
        None
    }
}

/// Reads an array of string literals at the start of `s`: its items and its length.
pub open spec fn parse_quoted_array(s: Seq<char>) -> Option<(Seq<Seq<char>>, nat)> {
    if s.len() < 2 || s[0] != '[' {
        None
    } else if s[1] == ']' {
        Some((Seq::empty(), 2))
    } else {
        match parse_quoted(s.drop_first()) {
            Some((x, k)) => if 1 + k <= s.len() {
                match parse_more_quoted(s.subrange(1 + k as int, s.len() as int)) {
                    Some((xs, j)) => Some((seq![x] + xs, 1 + k + j)),
                    None => None,
                }
            } else {
                None
            },
            None => None,
        }
    }
}

/// The characters of each string.
pub open spec fn texts(v: Seq<String>) -> Seq<Seq<char>> {
    v.map_values(|s: String| s@)
}

/// Items written each after a comma.
pub open spec fn after_commas(xs: Seq<Seq<char>>) -> Seq<char>
    decreases xs.len(),
{
    if xs.len() == 0 {
        Seq::empty()
    } else {
        seq![','] + quoted(xs[0]) + after_commas(xs.drop_first())
    }
}

proof fn lemma_after_commas_push(xs: Seq<Seq<char>>, x: Seq<char>)
    ensures
        after_commas(xs.push(x)) == after_commas(xs) + seq![','] + quoted(x),
    decreases xs.len(),
{
    if xs.len() == 0 {
        assert(xs.push(x).drop_first() =~= Seq::<Seq<char>>::empty());
        assert(xs.push(x)[0] == x);
        assert(after_commas(Seq::<Seq<char>>::empty()) == Seq::<char>::empty());
        assert(after_commas(xs) == Seq::<char>::empty());
        assert(after_commas(xs.push(x)) =~= after_commas(xs) + seq![','] + quoted(x));
    } else {
        assert(xs.push(x).drop_first() =~= xs.drop_first().push(x));
        lemma_after_commas_push(xs.drop_first(), x);
        assert(after_commas(xs.push(x)) =~= after_commas(xs) + seq![','] + quoted(x));
    }
}

proof fn lemma_join_front(xs: Seq<Seq<char>>)
    requires
        xs.len() > 0,
    ensures
        join(xs.map_values(|x: Seq<char>| quoted(x))) == quoted(xs[0]) + after_commas(xs.drop_first()),
    decreases xs.len(),
{
    let ys = xs.map_values(|x: Seq<char>| quoted(x));
    if xs.len() == 1 {
        assert(xs.drop_first() =~= Seq::<Seq<char>>::empty());
        assert(quoted(xs[0]) + after_commas(xs.drop_first()) =~= quoted(xs[0]));
    } else {
        let init = xs.drop_last();
        lemma_join_front(init);
        assert(ys.drop_last() =~= init.map_values(|x: Seq<char>| quoted(x)));
        assert(init.drop_first().push(xs.last()) =~= xs.drop_first());
        lemma_after_commas_push(init.drop_first(), xs.last());
        assert(join(ys) =~= quoted(xs[0]) + after_commas(xs.drop_first()));
    }
}

proof fn lemma_parse_more(xs: Seq<Seq<char>>, rest: Seq<char>)
    ensures
        parse_more_quoted(after_commas(xs) + seq![']'] + rest) == Some((xs, after_commas(xs).len() + 1)),
    decreases xs.len(),
{
    let s = after_commas(xs) + seq![']'] + rest;
    if xs.len() == 0 {
        assert(s =~= seq![']'] + rest);
        assert(xs =~= Seq::<Seq<char>>::empty());
    } else {
        let tail = after_commas(xs.drop_first()) + seq![']'] + rest;
        lemma_parse_quoted(xs[0], tail);
        assert(s.drop_first() =~= quoted(xs[0]) + tail);
        let k = quoted(xs[0]).len();
        assert(s.subrange(1 + k as int, s.len() as int) =~= tail);
        lemma_parse_more(xs.drop_first(), rest);
        assert(seq![xs[0]] + xs.drop_first() =~= xs);
    }
}

/// An array of string literals reads back as the strings it was written
/// from, whatever follows it.
#[verifier::rlimit(60)]
pub proof fn lemma_parse_quoted_array(v: Seq<String>, rest: Seq<char>)
    ensures
        parse_quoted_array(array(quoted_all(v)) + rest) == Some((texts(v), array(quoted_all(v)).len())),
{
    let xs = texts(v);
    let s = array(quoted_all(v)) + rest;
    assert(quoted_all(v) =~= xs.map_values(|x: Seq<char>| quoted(x)));
    if v.len() == 0 {
        assert(quoted_all(v) =~= Seq::<Seq<char>>::empty());
        assert(s =~= seq!['[', ']'] + rest);
        assert(xs =~= Seq::<Seq<char>>::empty());
    } else {
        lemma_join_front(xs);
        let tail = after_commas(xs.drop_first()) + seq![']'] + rest;
        assert(s =~= seq!['['] + quoted(xs[0]) + tail);
        assert(quoted(xs[0])[0] == '"');
        assert(s[1] == '"');
        lemma_parse_quoted(xs[0], tail);
        assert(s.drop_first() =~= quoted(xs[0]) + tail);
        let k = quoted(xs[0]).len();
        assert(s.subrange(1 + k as int, s.len() as int) =~= tail);
        lemma_parse_more(xs.drop_first(), rest);
        assert(seq![xs[0]] + xs.drop_first() =~= xs);
    }
}

/// Whether `s` begins with `lit`.
pub open spec fn starts_with(s: Seq<char>, lit: Seq<char>) -> bool {
    lit.len() <= s.len() && s.subrange(0, lit.len() as int) == lit
}

/// Reads a string literal at the start of `s`: what it holds, and what follows it.
pub open spec fn take_quoted(s: Seq<char>) -> Option<(Seq<char>, Seq<char>)> {
    match parse_quoted(s) {
        Some((x, k)) => if k <= s.len() {
            Some((x, s.skip(k as int)))
        } else {
            None
        },
        None => None,
    }
}

/// Reads `key` and a string literal after it where `s` begins with `key`;
/// where it does not, the field is absent and nothing is read.
pub open spec fn take_optional(s: Seq<char>, key: Seq<char>) -> Option<(Option<Seq<char>>, Seq<char>)> {
    if starts_with(s, key) {
        match take_quoted(s.skip(key.len() as int)) {
            Some((x, r)) => Some((Some(x), r)),
            None => None,
        }
    } else {
        Some((None, s))
    }
}

/// Reads an array of string literals at the start of `s`: its items, and what follows it.
pub open spec fn take_quoted_array(s: Seq<char>) -> Option<(Seq<Seq<char>>, Seq<char>)> {
    match parse_quoted_array(s) {
        Some((xs, k)) => if k <= s.len() {
            Some((xs, s.skip(k as int)))
        } else {
            None
        },
        None => None,
    }
}

/// The characters of an optional string.
pub open spec fn optional_text(o: Option<String>) -> Option<Seq<char>> {
    match o {
        Some(s) => Some(s@),
        None => None,
    }
}

pub proof fn lemma_take_quoted(x: Seq<char>, rest: Seq<char>)
    ensures
        take_quoted(quoted(x) + rest) == Some((x, rest)),
{
    lemma_parse_quoted(x, rest);
    assert((quoted(x) + rest).skip(quoted(x).len() as int) =~= rest);
}

pub proof fn lemma_take_quoted_array(v: Seq<String>, rest: Seq<char>)
    ensures
        take_quoted_array(array(quoted_all(v)) + rest) == Some((texts(v), rest)),
{
    lemma_parse_quoted_array(v, rest);
    assert((array(quoted_all(v)) + rest).skip(array(quoted_all(v)).len() as int) =~= rest);
}

pub proof fn lemma_starts_with(lit: Seq<char>, rest: Seq<char>)
    ensures
        starts_with(lit + rest, lit),
        (lit + rest).skip(lit.len() as int) == rest,
{
    assert((lit + rest).subrange(0, lit.len() as int) =~= lit);
    assert((lit + rest).skip(lit.len() as int) =~= rest);
}

/// An optional field reads back as it was written, provided that what
/// follows an absent field does not itself begin with its key.
pub proof fn lemma_take_optional(key: Seq<char>, v: Option<String>, rest: Seq<char>)
    requires
        v is None ==> !starts_with(rest, key),
    ensures
        take_optional(optional_field(key, v) + rest, key) == Some((optional_text(v), rest)),
{
    match v {
        Some(s) => {
            assert(optional_field(key, v) + rest =~= key + (quoted(s@) + rest));
            lemma_starts_with(key, quoted(s@) + rest);
            lemma_take_quoted(s@, rest);
        },
        None => {
            assert(optional_field(key, v) + rest =~= rest);
        },
    }
}

/// `key` followed by the string literal of `v`, or nothing when `v` is absent.
pub open spec fn optional_field(key: Seq<char>, v: Option<String>) -> Seq<char> {
    match v {
        Some(s) => key + quoted(s@),
        None => Seq::empty(),
    }
}

/// Reads the rest of an array after one of its items: more items, each after
/// a comma and read by `p`, then the closing bracket. Gives the items and
/// what follows the array.
pub open spec fn take_more<U>(p: spec_fn(Seq<char>) -> Option<(U, Seq<char>)>, s: Seq<char>) -> Option<
    (Seq<U>, Seq<char>),
>
    decreases s.len(),
{
    if s.len() == 0 {
        None
    } else if s[0] == ']' {
        Some((Seq::empty(), s.drop_first()))
    } else if s[0] == ',' {
        match p(s.drop_first()) {
            Some((x, r)) => if r.len() < s.len() {
                match take_more(p, r) {
                    Some((xs, r2)) => Some((seq![x] + xs, r2)),
                    None => None,
                }
            } else {
                None
            },
            None => None,
        }
    } else {
        None
    }
}

/// Reads an array whose items `p` reads: the items, and what follows the array.
pub open spec fn take_array<U>(p: spec_fn(Seq<char>) -> Option<(U, Seq<char>)>, s: Seq<char>) -> Option<
    (Seq<U>, Seq<char>),
> {
    if s.len() < 2 || s[0] != '[' {
        None
    } else if s[1] == ']' {
        Some((Seq::empty(), s.skip(2)))
    } else {
        match p(s.drop_first()) {
            Some((x, r)) => match take_more(p, r) {
                Some((xs, r2)) => Some((seq![x] + xs, r2)),
                None => None,
            },
            None => None,
        }
    }
}

/// Items written each after a comma.
pub open spec fn after_commas_of(ps: Seq<Seq<char>>) -> Seq<char>
    decreases ps.len(),
{
    if ps.len() == 0 {
        Seq::empty()
    } else {
        seq![','] + ps[0] + after_commas_of(ps.drop_first())
    }
}

proof fn lemma_after_commas_of_push(ps: Seq<Seq<char>>, x: Seq<char>)
    ensures
        after_commas_of(ps.push(x)) == after_commas_of(ps) + seq![','] + x,
    decreases ps.len(),
{
    if ps.len() == 0 {
        assert(ps.push(x).drop_first() =~= Seq::<Seq<char>>::empty());
        assert(ps.push(x)[0] == x);
        assert(after_commas_of(Seq::<Seq<char>>::empty()) == Seq::<char>::empty());
        assert(after_commas_of(ps) == Seq::<char>::empty());
        assert(after_commas_of(ps.push(x)) =~= after_commas_of(ps) + seq![','] + x);
    } else {
        assert(ps.push(x).drop_first() =~= ps.drop_first().push(x));
        lemma_after_commas_of_push(ps.drop_first(), x);
        assert(after_commas_of(ps.push(x)) =~= after_commas_of(ps) + seq![','] + x);
    }
}

proof fn lemma_join_split(ps: Seq<Seq<char>>)
    requires
        ps.len() > 0,
    ensures
        join(ps) == ps[0] + after_commas_of(ps.drop_first()),
    decreases ps.len(),
{
    if ps.len() == 1 {
        assert(ps.drop_first() =~= Seq::<Seq<char>>::empty());
        assert(ps[0] + after_commas_of(ps.drop_first()) =~= ps[0]);
    } else {
        let init = ps.drop_last();
        lemma_join_split(init);
        assert(init.drop_first().push(ps.last()) =~= ps.drop_first());
        lemma_after_commas_of_push(init.drop_first(), ps.last());
        assert(join(ps) =~= ps[0] + after_commas_of(ps.drop_first()));
    }
}

proof fn lemma_take_more<T, U>(
    p: spec_fn(Seq<char>) -> Option<(U, Seq<char>)>,
    enc: spec_fn(T) -> Seq<char>,
    dec: spec_fn(T) -> U,
    v: Seq<T>,
    rest: Seq<char>,
)
    requires
        forall|x: T, r: Seq<char>| #[trigger] p(enc(x) + r) == Some((dec(x), r)),
    ensures
        take_more(p, after_commas_of(v.map_values(enc)) + seq![']'] + rest) == Some((v.map_values(dec), rest)),
    decreases v.len(),
{
    let ps = v.map_values(enc);
    let s = after_commas_of(ps) + seq![']'] + rest;
    if v.len() == 0 {
        assert(ps =~= Seq::<Seq<char>>::empty());
        assert(s =~= seq![']'] + rest);
        assert(s.drop_first() =~= rest);
        assert(v.map_values(dec) =~= Seq::<U>::empty());
    } else {
        let tail = after_commas_of(ps.drop_first()) + seq![']'] + rest;
        assert(ps.drop_first() =~= v.drop_first().map_values(enc));
        assert(s =~= seq![','] + enc(v[0]) + tail);
        assert(s.drop_first() =~= enc(v[0]) + tail);
        assert(p(enc(v[0]) + tail) == Some((dec(v[0]), tail)));
        lemma_take_more(p, enc, dec, v.drop_first(), rest);
        assert(seq![dec(v[0])] + v.drop_first().map_values(dec) =~= v.map_values(dec));
    }
}

/// An array of items reads back as the items it was written from, where `p`
/// reads back each item that `enc` writes.
pub proof fn lemma_take_array<T, U>(
    p: spec_fn(Seq<char>) -> Option<(U, Seq<char>)>,
    enc: spec_fn(T) -> Seq<char>,
    dec: spec_fn(T) -> U,
    v: Seq<T>,
    rest: Seq<char>,
)
    requires
        forall|x: T, r: Seq<char>| #[trigger] p(enc(x) + r) == Some((dec(x), r)),
        forall|x: T| #![trigger enc(x)] enc(x).len() > 0 && enc(x)[0] != ']',
    ensures
        take_array(p, array(v.map_values(enc)) + rest) == Some((v.map_values(dec), rest)),
{
    let ps = v.map_values(enc);
    let s = array(ps) + rest;
    if v.len() == 0 {
        assert(ps =~= Seq::<Seq<char>>::empty());
        assert(s =~= seq!['[', ']'] + rest);
        assert(s.skip(2) =~= rest);
        assert(v.map_values(dec) =~= Seq::<U>::empty());
    } else {
        lemma_join_split(ps);
        let tail = after_commas_of(ps.drop_first()) + seq![']'] + rest;
        assert(ps.drop_first() =~= v.drop_first().map_values(enc));
        assert(s =~= seq!['['] + enc(v[0]) + tail);
        assert(s[1] == enc(v[0])[0]);
        assert(s.drop_first() =~= enc(v[0]) + tail);
        assert(p(enc(v[0]) + tail) == Some((dec(v[0]), tail)));
        lemma_take_more(p, enc, dec, v.drop_first(), rest);
        assert(seq![dec(v[0])] + v.drop_first().map_values(dec) =~= v.map_values(dec));
    }
}

fn push_hex_digit(out: &mut String, d: u32)
    requires
        d < 16,
    ensures
        final(out)@ == old(out)@.push(hex_digit(d as nat)),
{
    let digits = "0123456789abcdef";
    proof {
        reveal_strlit("0123456789abcdef");
    }
    let i = d as usize;
    out.append(digits.substring_char(i, i + 1));
    assert(digits@.subrange(i as int, i + 1) =~= seq![hex_digit(d as nat)]);
}

fn push_escaped_char(out: &mut String, s: &str, i: usize)
    requires
        i < s@.len() <= usize::MAX,
    ensures
        final(out)@ == old(out)@ + escape_char(s@[i as int]),
{
    let c = s.get_char(i);
    if c == '"' {
        proof { reveal_strlit("\\\""); }
        out.append("\\\"");
    } else if c == '\\' {
        proof { reveal_strlit("\\\\"); }
        out.append("\\\\");
    } else if c == '\n' {
        proof { reveal_strlit("\\n"); }
        out.append("\\n");
    } else if c == '\r' {
        proof { reveal_strlit("\\r"); }
        out.append("\\r");
    } else if c == '\t' {
        proof { reveal_strlit("\\t"); }
        out.append("\\t");
    } else if c == '\x08' {
        proof { reveal_strlit("\\b"); }
        out.append("\\b");
    } else if c == '\x0c' {
        proof { reveal_strlit("\\f"); }
        out.append("\\f");
    } else if (c as u32) < 32 {
        proof { reveal_strlit("\\u00"); }
        out.append("\\u00");
        push_hex_digit(out, (c as u32) / 16);
        push_hex_digit(out, (c as u32) % 16);
    } else {
        out.append(s.substring_char(i, i + 1));
    }
    assert(final(out)@ =~= old(out)@ + escape_char(s@[i as int]));
}

/// Appends `s` to `out` as a JSON string literal.
pub fn push_quoted(out: &mut String, s: &str)
    ensures
        final(out)@ == old(out)@ + quoted(s@),
{
    proof { reveal_strlit("\""); }
    out.append("\"");
    let ghost start = out@;
    let n = s.unicode_len();
    let mut i: usize = 0;
    while i < n
        invariant
            n == s@.len(),
            i <= n,
            out@ == start + escape(s@.subrange(0, i as int)),
        decreases n - i,
    {
        push_escaped_char(out, s, i);
        proof {
            assert(s@.subrange(0, i + 1).drop_last() =~= s@.subrange(0, i as int));
        }
        i = i + 1;
    }
    assert(s@.subrange(0, n as int) =~= s@);
    out.append("\"");
    assert(out@ =~= old(out)@ + quoted(s@));
}

/// Items separated by commas.
pub open spec fn join(parts: Seq<Seq<char>>) -> Seq<char>
    decreases parts.len(),
{
    if parts.len() == 0 {
        Seq::empty()
    } else if parts.len() == 1 {
        parts[0]
    } else {
        join(parts.drop_last()) + seq![','] + parts.last()
    }
}

/// A JSON array whose items have the encodings `parts`.
pub open spec fn array(parts: Seq<Seq<char>>) -> Seq<char> {
    seq!['['] + join(parts) + seq![']']
}

/// The encodings of a list of strings as JSON string literals.
pub open spec fn quoted_all(v: Seq<String>) -> Seq<Seq<char>> {
    v.map_values(|s: String| quoted(s@))
}

/// Appends a JSON array of string literals holding the items of `v`.
pub fn push_string_array(out: &mut String, v: &Vec<String>)
    ensures
        final(out)@ == old(out)@ + array(quoted_all(v@)),
{
    proof { reveal_strlit("["); reveal_strlit(","); reveal_strlit("]"); }
    out.append("[");
    let ghost start = out@;
    let mut i: usize = 0;
    while i < v.len()
        invariant
            i <= v@.len(),
            out@ == start + join(quoted_all(v@.subrange(0, i as int))),
        decreases v@.len() - i,
    {
        let ghost before = out@;
        if i > 0 {
            proof { reveal_strlit(","); }
            out.append(",");
        }
        push_quoted(out, v[i].as_str());
        proof {
            let prev = quoted_all(v@.subrange(0, i as int));
            let next = quoted_all(v@.subrange(0, i + 1));
            assert(next.drop_last() =~= prev);
            assert(next.last() == quoted(v@[i as int]@));
            if i == 0 {
                assert(next =~= seq![quoted(v@[0]@)]);
                assert(out@ =~= start + join(next));
            } else {
                assert(out@ =~= before + seq![','] + quoted(v@[i as int]@));
                assert(out@ =~= start + join(next));
            }
        }
        i = i + 1;
    }
    assert(v@.subrange(0, v@.len() as int) =~= v@);
    out.append("]");
    assert(out@ =~= old(out)@ + array(quoted_all(v@)));
}

} // verus!
