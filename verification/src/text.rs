//! Text helpers: prefixes, digits, quotes and dotted port paths.
use vstd::prelude::*;
use vstd::string::*;

verus! {

/// `text` begins with `prefix`.
pub open spec fn has_prefix(text: Seq<char>, prefix: Seq<char>) -> bool {
    prefix.len() <= text.len() && text.take(prefix.len() as int) == prefix
}

/// What remains of `text` once `prefix` is removed, or all of it when it does not start with
/// `prefix`.
pub open spec fn without_prefix(text: Seq<char>, prefix: Seq<char>) -> Seq<char> {
    if has_prefix(text, prefix) {
        text.skip(prefix.len() as int)
    } else {
        text
    }
}

/// Whether two strings hold the same characters.
pub fn same_text(a: &str, b: &str) -> (same: bool)
    ensures
        same == (a@ == b@),
{
    a.to_owned() == b.to_owned()
}

/// Removes `prefix` from the front of `text`, if it is there.
pub fn strip_prefix<'a>(text: &'a str, prefix: &str) -> (rest: Option<&'a str>)
    ensures
        rest is Some <==> has_prefix(text@, prefix@),
        rest matches Some(rest) ==> rest@ == text@.skip(prefix@.len() as int),
{
    let length: usize = text.unicode_len();
    let skipped: usize = prefix.unicode_len();
    if skipped > length {
        return None;
    }
    let head = text.substring_char(0, skipped);
    assert(head@ == text@.take(prefix@.len() as int));
    if !same_text(head, prefix) {
        return None;
    }
    let tail = text.substring_char(skipped, length);
    assert(tail@ == text@.skip(prefix@.len() as int));
    Some(tail)
}

/// Removes `prefix` from the front of `text` when it is there, and returns `text` otherwise.
pub fn trim_prefix<'a>(text: &'a str, prefix: &str) -> (rest: &'a str)
    ensures
        rest@ == without_prefix(text@, prefix@),
{
    match strip_prefix(text, prefix) {
        Some(rest) => rest,
        None => text,
    }
}

/// The concatenation of two strings.
pub fn joined(a: &str, b: &str) -> (text: String)
    ensures
        text@ == a@ + b@,
{
    a.to_owned().concat(b)
}

/// The first `limit` characters of `text`.
pub fn truncated(text: &str, limit: usize) -> (short: String)
    ensures
        short@ == text@.take(if limit <= text@.len() { limit as int } else { text@.len() as int }),
{
    let length: usize = text.unicode_len();
    let kept: usize = if limit < length { limit } else { length };
    let head = text.substring_char(0, kept);
    assert(head@ == text@.take(kept as int));
    head.to_owned()
}

/// The characters that stand for the values zero to fifteen.
pub open spec fn digit_chars() -> Seq<char> {
    "0123456789abcdef"@
}

/// `n` in decimal, without leading zeros.
pub open spec fn decimal(n: nat) -> Seq<char>
    decreases n,
{
    if n < 10 {
        seq![digit_chars()[n as int]]
    } else {
        decimal(n / 10).push(digit_chars()[(n % 10) as int])
    }
}

/// `n` in lower-case hexadecimal, four digits wide.
pub open spec fn hex4(n: u16) -> Seq<char> {
    seq![
        digit_chars()[n as int / 4096],
        digit_chars()[n as int / 256 % 16],
        digit_chars()[n as int / 16 % 16],
        digit_chars()[n as int % 16],
    ]
}

fn digit_text(d: usize) -> (text: &'static str)
    requires
        d < 16,
    ensures
        text@ == seq![digit_chars()[d as int]],
{
    let digits = "0123456789abcdef";
    proof {
        reveal_strlit("0123456789abcdef");
    }
    let text = digits.substring_char(d, d + 1);
    assert(text@ =~= seq![digit_chars()[d as int]]);
    text
}

/// Writes `n` in decimal.
pub fn decimal_text(n: u32) -> (text: String)
    ensures
        text@ == decimal(n as nat),
    decreases n,
{
    if n < 10 {
        digit_text(n as usize).to_owned()
    } else {
        decimal_text(n / 10).concat(digit_text((n % 10) as usize))
    }
}

/// Writes `n` as four hexadecimal digits.
pub fn hex4_text(n: u16) -> (text: String)
    ensures
        text@ == hex4(n),
{
    let text = digit_text((n / 4096) as usize).to_owned()
        .concat(digit_text((n / 256 % 16) as usize))
        .concat(digit_text((n / 16 % 16) as usize))
        .concat(digit_text((n % 16) as usize));
    assert(text@ =~= hex4(n));
    text
}

/// `c` is a decimal digit.
pub open spec fn is_digit(c: char) -> bool {
    '0' <= c <= '9'
}

/// The number that a sequence of decimal digits stands for.
pub open spec fn digits_value(digits: Seq<char>) -> nat
    decreases digits.len(),
{
    if digits.len() == 0 {
        0
    } else {
        10 * digits_value(digits.drop_last()) + (digits.last() as nat - '0' as nat) as nat
    }
}

pub open spec fn all_digits(text: Seq<char>) -> bool {
    forall|i: int| 0 <= i < text.len() ==> is_digit(#[trigger] text[i])
}

/// The byte that `text` denotes: decimal digits, at least one of them, after at most one `+`.
pub open spec fn byte_value(text: Seq<char>) -> Option<u8> {
    let digits = if text.len() > 0 && text[0] == '+' { text.skip(1) } else { text };
    if digits.len() > 0 && all_digits(digits) && digits_value(digits) <= 255 {
        Some(digits_value(digits) as u8)
    } else {
        None
    }
}

proof fn lemma_digits_value_grows(digits: Seq<char>, i: int)
    requires
        0 <= i <= digits.len(),
        all_digits(digits),
    ensures
        digits_value(digits.take(i)) <= digits_value(digits),
    decreases digits.len() - i,
{
    if i < digits.len() {
        let longer = digits.take(i + 1);
        assert(longer.drop_last() =~= digits.take(i));
        assert(is_digit(longer.last()));
        lemma_digits_value_grows(digits, i + 1);
    } else {
        assert(digits.take(i) =~= digits);
    }
}

/// Reads a byte written in decimal.
pub fn parse_byte(text: &str) -> (value: Option<u8>)
    ensures
        value == byte_value(text@),
{
    let length: usize = text.unicode_len();
    let start: usize = if length > 0 && text.get_char(0) == '+' { 1 } else { 0 };
    let ghost digits = if start == 1 { text@.skip(1) } else { text@ };
    if start == length {
        return None;
    }
    let mut i: usize = start;
    let mut value: u32 = 0;
    assert(digits.take(0) =~= Seq::<char>::empty());
    while i < length
        invariant
            start <= 1,
            start <= i <= length,
            length == text@.len(),
            digits == if start == 1 { text@.skip(1) } else { text@ },
            digits == if text@.len() > 0 && text@[0] == '+' { text@.skip(1) } else { text@ },
            digits.len() == length - start,
            all_digits(digits.take(i - start)),
            value == digits_value(digits.take(i - start)),
            value <= 255,
        decreases length - i,
    {
        let c = text.get_char(i);
        assert(c == digits[i - start]);
        if !(c >= '0' && c <= '9') {
            assert(!is_digit(digits[i - start]));
            return None;
        }
        let ghost longer = digits.take(i - start + 1);
        assert(longer.drop_last() =~= digits.take(i - start));
        assert(longer.last() == c);
        value = 10 * value + (c as u32 - '0' as u32);
        assert(value == digits_value(longer));
        assert forall|j: int| 0 <= j < longer.len() implies is_digit(#[trigger] longer[j]) by {
            if j < i - start {
                assert(longer[j] == digits.take(i - start)[j]);
            }
        }
        if value > 255 {
            proof {
                if all_digits(digits) {
                    lemma_digits_value_grows(digits, i - start + 1);
                }
            }
            return None;
        }
        i += 1;
    }
    assert(digits.take(i - start) =~= digits);
    Some(value as u8)
}

/// `text` cut at every dot.
pub open spec fn dot_pieces(text: Seq<char>) -> Seq<Seq<char>>
    decreases text.len(),
{
    if text.len() == 0 {
        seq![Seq::<char>::empty()]
    } else {
        let pieces = dot_pieces(text.drop_last());
        if text.last() == '.' {
            pieces.push(Seq::<char>::empty())
        } else {
            pieces.drop_last().push(pieces.last().push(text.last()))
        }
    }
}

/// The port numbers of a dotted path, if every piece of it is a byte.
pub open spec fn path_ports(text: Seq<char>) -> Option<Seq<u8>> {
    let pieces = dot_pieces(text);
    if forall|i: int| 0 <= i < pieces.len() ==> byte_value(#[trigger] pieces[i]) is Some {
        Some(pieces.map_values(|piece: Seq<char>| byte_value(piece)->0))
    } else {
        None
    }
}

proof fn lemma_pieces_extend(text: Seq<char>, i: int)
    requires
        0 <= i <= text.len(),
    ensures
        dot_pieces(text.take(i)).len() >= 1,
        dot_pieces(text.take(i)).len() <= dot_pieces(text).len(),
        forall|k: int|
            0 <= k < dot_pieces(text.take(i)).len() - 1 ==> dot_pieces(text)[k]
                == #[trigger] dot_pieces(text.take(i))[k],
    decreases text.len() - i, text.len(),
{
    lemma_pieces_nonempty(text.take(i));
    if i < text.len() {
        let longer = text.take(i + 1);
        assert(longer.drop_last() =~= text.take(i));
        lemma_pieces_extend(text, i + 1);
        assert forall|k: int| 0 <= k < dot_pieces(text.take(i)).len() - 1 implies dot_pieces(text)[k]
            == #[trigger] dot_pieces(text.take(i))[k] by {
            assert(dot_pieces(longer)[k] == dot_pieces(text.take(i))[k]);
        }
    } else {
        assert(text.take(i) =~= text);
    }
}

proof fn lemma_pieces_nonempty(text: Seq<char>)
    ensures
        dot_pieces(text).len() >= 1,
    decreases text.len(),
{
    if text.len() > 0 {
        lemma_pieces_nonempty(text.drop_last());
    }
}

/// Reads the port numbers of a dotted path.
pub fn parse_ports(text: &str) -> (ports: Option<Vec<u8>>)
    ensures
        ports is Some <==> path_ports(text@) is Some,
        ports matches Some(ports) ==> ports@ == path_ports(text@)->0,
{
    let length: usize = text.unicode_len();
    let mut ports: Vec<u8> = Vec::new();
    let mut start: usize = 0;
    let mut i: usize = 0;
    assert(text@.take(0) =~= Seq::<char>::empty());
    assert(text@.subrange(0, 0) =~= Seq::<char>::empty());
    assert(dot_pieces(text@.take(0)).drop_last() =~= Seq::<Seq<char>>::empty());
    while i < length
        invariant
            0 <= start <= i <= length,
            length == text@.len(),
            dot_pieces(text@.take(i as int)).len() == ports@.len() + 1,
            dot_pieces(text@.take(i as int)).last() == text@.subrange(start as int, i as int),
            forall|k: int|
                0 <= k < ports@.len() ==> byte_value(
                    #[trigger] dot_pieces(text@.take(i as int))[k],
                ) == Some(ports@[k]),
        decreases length - i,
    {
        let c = text.get_char(i);
        let ghost before = text@.take(i as int);
        let ghost after = text@.take(i + 1);
        assert(after.drop_last() =~= before);
        if c == '.' {
            let piece = text.substring_char(start, i);
            match parse_byte(piece) {
                Some(port) => {
                    ports.push(port);
                },
                None => {
                    proof {
                        lemma_pieces_extend(text@, i + 1);
                        let k = dot_pieces(before).len() - 1;
                        assert(dot_pieces(after)[k] == piece@);
                        assert(dot_pieces(text@)[k] == dot_pieces(after)[k]);
                    }
                    return None;
                },
            }
            start = i + 1;
            assert(text@.subrange(start as int, i + 1) =~= Seq::<char>::empty());
        } else {
            assert(text@.subrange(start as int, i + 1) =~= text@.subrange(
                start as int,
                i as int,
            ).push(c));
        }
        i += 1;
    }
    assert(text@.take(i as int) =~= text@);
    let piece = text.substring_char(start, length);
    match parse_byte(piece) {
        Some(port) => {
            ports.push(port);
            proof {
                let pieces = dot_pieces(text@);
                assert forall|k: int| 0 <= k < pieces.len() implies byte_value(
                    #[trigger] pieces[k],
                ) == Some(ports@[k]) by {}
                assert(ports@ =~= path_ports(text@)->0);
            }
            Some(ports)
        },
        None => {
            assert(dot_pieces(text@).last() == piece@);
            None
        },
    }
}

/// A port path as it is written in a device identity: decimal numbers with dots between them.
pub open spec fn port_path(ports: Seq<u8>) -> Seq<char>
    decreases ports.len(),
{
    if ports.len() == 0 {
        Seq::empty()
    } else if ports.len() == 1 {
        decimal(ports[0] as nat)
    } else {
        port_path(ports.drop_last()).push('.') + decimal(ports.last() as nat)
    }
}

proof fn lemma_digit_chars(d: int)
    requires
        0 <= d < 10,
    ensures
        is_digit(digit_chars()[d]),
        digit_chars()[d] as nat - '0' as nat == d,
{
    reveal_strlit("0123456789abcdef");
}

proof fn lemma_decimal_digits(n: nat)
    ensures
        decimal(n).len() > 0,
        all_digits(decimal(n)),
        digits_value(decimal(n)) == n,
    decreases n,
{
    lemma_digit_chars((n % 10) as int);
    if n < 10 {
        reveal_with_fuel(digits_value, 2);
        assert(decimal(n).drop_last() =~= Seq::<char>::empty());
    } else {
        lemma_decimal_digits(n / 10);
        assert(decimal(n).drop_last() =~= decimal(n / 10));
    }
}

/// Reading back a byte that was written in decimal gives the byte.
pub proof fn lemma_decimal_reads_back(n: u8)
    ensures
        byte_value(decimal(n as nat)) == Some(n),
{
    lemma_decimal_digits(n as nat);
    assert(is_digit(decimal(n as nat)[0]));
}

proof fn lemma_hex_digits_differ(a: int, b: int)
    requires
        0 <= a < 16,
        0 <= b < 16,
        digit_chars()[a] == digit_chars()[b],
    ensures
        a == b,
{
    reveal_strlit("0123456789abcdef");
}

/// Different numbers have different hexadecimal digits.
pub proof fn lemma_hex4_tells_apart(a: u16, b: u16)
    requires
        hex4(a) == hex4(b),
    ensures
        a == b,
{
    assert(hex4(a)[0] == hex4(b)[0]);
    assert(hex4(a)[1] == hex4(b)[1]);
    assert(hex4(a)[2] == hex4(b)[2]);
    assert(hex4(a)[3] == hex4(b)[3]);
    lemma_hex_digits_differ(a as int / 4096, b as int / 4096);
    lemma_hex_digits_differ(a as int / 256 % 16, b as int / 256 % 16);
    lemma_hex_digits_differ(a as int / 16 % 16, b as int / 16 % 16);
    lemma_hex_digits_differ(a as int % 16, b as int % 16);
}

/// A number in decimal that ends at a character which is no digit can be read only one way.
pub proof fn lemma_decimal_tells_apart(a: nat, b: nat, stop: char, text: Seq<char>)
    requires
        !is_digit(stop),
        has_prefix(text, decimal(a).push(stop)),
        has_prefix(text, decimal(b).push(stop)),
    ensures
        a == b,
{
    lemma_decimal_digits(a);
    lemma_decimal_digits(b);
    let first = decimal(a).push(stop);
    let second = decimal(b).push(stop);
    assert forall|i: int| 0 <= i < first.len() implies #[trigger] text[i] == first[i] by {
        assert(text.take(first.len() as int)[i] == first[i]);
    }
    assert forall|i: int| 0 <= i < second.len() implies #[trigger] text[i] == second[i] by {
        assert(text.take(second.len() as int)[i] == second[i]);
    }
    if decimal(a).len() < decimal(b).len() {
        let i = decimal(a).len() as int;
        assert(text[i] == first[i]);
        assert(text[i] == second[i]);
        assert(is_digit(decimal(b)[i]));
    } else if decimal(b).len() < decimal(a).len() {
        let i = decimal(b).len() as int;
        assert(text[i] == first[i]);
        assert(text[i] == second[i]);
        assert(is_digit(decimal(a)[i]));
    } else {
        assert forall|i: int| 0 <= i < decimal(a).len() implies decimal(a)[i] == decimal(b)[i] by {
            assert(text[i] == first[i]);
            assert(text[i] == second[i]);
        }
        assert(decimal(a) =~= decimal(b));
    }
}

/// A character as it is written between quotes: a quote or a backslash after a backslash.
pub open spec fn escaped_char(c: char) -> Seq<char> {
    if c == '"' || c == '\\' {
        seq!['\\', c]
    } else {
        seq![c]
    }
}

/// A text as it is written between quotes.
pub open spec fn escaped(text: Seq<char>) -> Seq<char>
    decreases text.len(),
{
    if text.len() == 0 {
        Seq::empty()
    } else {
        escaped(text.drop_last()) + escaped_char(text.last())
    }
}

/// A text in quotes.
pub open spec fn quoted(text: Seq<char>) -> Seq<char> {
    seq!['"'] + escaped(text) + seq!['"']
}

/// Writes a text in quotes.
pub fn quoted_text(text: &str) -> (quote: String)
    ensures
        quote@ == quoted(text@),
{
    proof {
        reveal_strlit("\"");
        reveal_strlit("\\");
    }
    let length: usize = text.unicode_len();
    let mut quote: String = "\"".to_owned();
    let mut i: usize = 0;
    assert(text@.take(0).len() == 0);
    assert(quote@ =~= seq!['"'] + escaped(text@.take(0)));
    while i < length
        invariant
            i <= length,
            length == text@.len(),
            "\\"@ == seq!['\\'],
            quote@ == seq!['"'] + escaped(text@.take(i as int)),
        decreases length - i,
    {
        let c = text.get_char(i);
        let piece = text.substring_char(i, i + 1);
        proof {
            assert(piece@ =~= seq![c]);
            assert(text@.take(i + 1).drop_last() =~= text@.take(i as int));
            assert(text@.take(i + 1).last() == c);
        }
        let ghost before = quote@;
        if c == '"' || c == '\\' {
            quote.append("\\");
        }
        quote.append(piece);
        assert(quote@ =~= before + escaped_char(c));
        assert(quote@ =~= seq!['"'] + escaped(text@.take(i + 1)));
        i += 1;
    }
    assert(text@.take(i as int) =~= text@);
    quote.append("\"");
    assert("\""@ =~= seq!['"']);
    quote
}

/// What stands before a common tail.
pub proof fn lemma_cut_tail(a: Seq<char>, b: Seq<char>, tail: Seq<char>)
    requires
        a + tail == b + tail,
    ensures
        a == b,
{
    let first = a + tail;
    let second = b + tail;
    assert(first.len() == a.len() + tail.len());
    assert(second.len() == b.len() + tail.len());
    assert(first.take(a.len() as int) =~= a);
    assert(second.take(b.len() as int) =~= b);
}

/// A number in decimal that follows a character which is no digit can be read only one way from
/// the end.
pub proof fn lemma_last_number(a: Seq<char>, n: nat, b: Seq<char>, m: nat)
    requires
        a.len() > 0 && !is_digit(a.last()),
        b.len() > 0 && !is_digit(b.last()),
        a + decimal(n) == b + decimal(m),
    ensures
        a == b,
        n == m,
{
    lemma_decimal_digits(n);
    lemma_decimal_digits(m);
    let first = a + decimal(n);
    let second = b + decimal(m);
    assert(first.len() == a.len() + decimal(n).len());
    assert(second.len() == b.len() + decimal(m).len());
    if a.len() < b.len() {
        let i = b.len() - 1;
        assert(second[i] == b.last());
        assert(first[i] == decimal(n)[i - a.len()]);
    } else if b.len() < a.len() {
        let i = a.len() - 1;
        assert(first[i] == a.last());
        assert(second[i] == decimal(m)[i - b.len()]);
    } else {
        assert(first.take(a.len() as int) =~= a);
        assert(second.take(b.len() as int) =~= b);
        assert(first.skip(a.len() as int) =~= decimal(n));
        assert(second.skip(b.len() as int) =~= decimal(m));
    }
}

proof fn lemma_last_open_quote(a: Seq<char>, x: Seq<char>, b: Seq<char>, y: Seq<char>)
    requires
        a.len() > 0 && a.last() != '\\',
        b.len() > 0 && b.last() != '\\',
        a.push('"') + escaped(x) == b.push('"') + escaped(y),
    ensures
        a == b,
        x == y,
    decreases x.len() + y.len(), x.len(),
{
    let first = a.push('"') + escaped(x);
    let second = b.push('"') + escaped(y);
    let n = first.len() as int;
    assert(second.len() == n);
    assert(first[n - 1] == second[n - 1]);
    if x.len() == 0 && y.len() == 0 {
        assert(first =~= a.push('"'));
        assert(second =~= b.push('"'));
        assert(first.drop_last() =~= a);
        assert(second.drop_last() =~= b);
        assert(x =~= y);
    } else if x.len() == 0 {
        let c = y.last();
        let before = b.push('"') + escaped(y.drop_last());
        assert(second =~= before + escaped_char(c));
        assert(first[n - 1] == '"');
        assert(first[n - 2] == a.last());
        assert(escaped_char(c).last() == c);
        assert(second[n - 1] == c);
        assert(second[n - 2] == '\\');
    } else if y.len() == 0 {
        lemma_last_open_quote(b, y, a, x);
    } else {
        let c = x.last();
        let d = y.last();
        let before = a.push('"') + escaped(x.drop_last());
        let other = b.push('"') + escaped(y.drop_last());
        assert(first =~= before + escaped_char(c));
        assert(second =~= other + escaped_char(d));
        assert(first[n - 1] == c);
        assert(second[n - 1] == d);
        lemma_cut_tail(before, other, escaped_char(c));
        lemma_last_open_quote(a, x.drop_last(), b, y.drop_last());
        assert(x =~= x.drop_last().push(c));
        assert(y =~= y.drop_last().push(d));
    }
}

/// A text in quotes that follows a character other than a backslash can be read only one way from
/// the end.
pub proof fn lemma_last_quoted(a: Seq<char>, x: Seq<char>, b: Seq<char>, y: Seq<char>)
    requires
        a.len() > 0 && a.last() != '\\',
        b.len() > 0 && b.last() != '\\',
        a + quoted(x) == b + quoted(y),
    ensures
        a == b,
        x == y,
{
    let first = a.push('"') + escaped(x);
    let second = b.push('"') + escaped(y);
    assert(a + quoted(x) =~= first + seq!['"']);
    assert(b + quoted(y) =~= second + seq!['"']);
    lemma_cut_tail(first, second, seq!['"']);
    lemma_last_open_quote(a, x, b, y);
}

proof fn lemma_pieces_append(text: Seq<char>, tail: Seq<char>)
    requires
        forall|i: int| 0 <= i < tail.len() ==> #[trigger] tail[i] != '.',
    ensures
        dot_pieces(text + tail) == dot_pieces(text).drop_last().push(
            dot_pieces(text).last() + tail,
        ),
    decreases tail.len(),
{
    lemma_pieces_nonempty(text);
    if tail.len() == 0 {
        assert(text + tail =~= text);
        assert(dot_pieces(text).last() + tail =~= dot_pieces(text).last());
        assert(dot_pieces(text) =~= dot_pieces(text).drop_last().push(dot_pieces(text).last()));
    } else {
        let shorter = tail.drop_last();
        lemma_pieces_append(text, shorter);
        assert((text + tail).drop_last() =~= text + shorter);
        assert((text + tail).last() == tail.last());
        assert(tail.last() == tail[tail.len() - 1]);
        let pieces = dot_pieces(text + shorter);
        assert(pieces.last() =~= dot_pieces(text).last() + shorter);
        assert(pieces.drop_last() =~= dot_pieces(text).drop_last());
        assert(pieces.last().push(tail.last()) =~= dot_pieces(text).last() + tail);
    }
}

proof fn lemma_pieces_of_path(ports: Seq<u8>)
    requires
        ports.len() > 0,
    ensures
        dot_pieces(port_path(ports)) == ports.map_values(|port: u8| decimal(port as nat)),
    decreases ports.len(),
{
    let written = ports.map_values(|port: u8| decimal(port as nat));
    let last = decimal(ports.last() as nat);
    lemma_decimal_digits(ports.last() as nat);
    assert forall|i: int| 0 <= i < last.len() implies #[trigger] last[i] != '.' by {
        assert(is_digit(last[i]));
    }
    if ports.len() == 1 {
        lemma_pieces_append(Seq::empty(), last);
        assert(Seq::<char>::empty() + last =~= last);
        assert(dot_pieces(last) =~= written);
    } else {
        let head = port_path(ports.drop_last());
        lemma_pieces_of_path(ports.drop_last());
        assert(head.push('.').drop_last() =~= head);
        lemma_pieces_append(head.push('.'), last);
        let pieces = dot_pieces(head.push('.'));
        assert(pieces =~= dot_pieces(head).push(Seq::<char>::empty()));
        assert(pieces.drop_last() =~= dot_pieces(head));
        assert(pieces.last() + last =~= last);
        assert(dot_pieces(port_path(ports)) =~= written);
    }
}

/// Reading back a port path that was written gives the ports.
pub proof fn lemma_path_reads_back(ports: Seq<u8>)
    requires
        ports.len() > 0,
    ensures
        path_ports(port_path(ports)) == Some(ports),
{
    lemma_pieces_of_path(ports);
    let pieces = dot_pieces(port_path(ports));
    assert forall|i: int| 0 <= i < pieces.len() implies byte_value(#[trigger] pieces[i]) == Some(
        ports[i],
    ) by {
        lemma_decimal_reads_back(ports[i]);
    }
    assert(path_ports(port_path(ports))->0 =~= ports);
}

/// `c` is white space.
pub open spec fn is_white_space(c: char) -> bool {
    ||| '\u{9}' <= c <= '\u{d}'
    ||| c == '\u{20}' || c == '\u{85}' || c == '\u{a0}' || c == '\u{1680}'
    ||| '\u{2000}' <= c <= '\u{200a}'
    ||| c == '\u{2028}' || c == '\u{2029}' || c == '\u{202f}' || c == '\u{205f}'
    ||| c == '\u{3000}'
}

/// The text without the white space at its start.
pub open spec fn trimmed_start(text: Seq<char>) -> Seq<char>
    decreases text.len(),
{
    if text.len() > 0 && is_white_space(text[0]) {
        trimmed_start(text.skip(1))
    } else {
        text
    }
}

/// The text without the white space at its end.
pub open spec fn trimmed_end(text: Seq<char>) -> Seq<char>
    decreases text.len(),
{
    if text.len() > 0 && is_white_space(text.last()) {
        trimmed_end(text.drop_last())
    } else {
        text
    }
}

/// The text without the white space around it.
pub open spec fn trimmed(text: Seq<char>) -> Seq<char> {
    trimmed_end(trimmed_start(text))
}

fn white_space(c: char) -> (white: bool)
    ensures
        white == is_white_space(c),
{
    ('\u{9}' <= c && c <= '\u{d}') || c == '\u{20}' || c == '\u{85}' || c == '\u{a0}' || c
        == '\u{1680}' || ('\u{2000}' <= c && c <= '\u{200a}') || c == '\u{2028}' || c
        == '\u{2029}' || c == '\u{202f}' || c == '\u{205f}' || c == '\u{3000}'
}

/// Removes the white space around `text`.
pub fn trim(text: &str) -> (rest: &str)
    ensures
        rest@ == trimmed(text@),
{
    let length: usize = text.unicode_len();
    let mut from: usize = 0;
    assert(text@.skip(0) =~= text@);
    while from < length && white_space(text.get_char(from))
        invariant
            from <= length,
            length == text@.len(),
            trimmed_start(text@) == trimmed_start(text@.skip(from as int)),
        decreases length - from,
    {
        assert(text@.skip(from as int).skip(1) =~= text@.skip(from + 1));
        from += 1;
    }
    let ghost rest = text@.skip(from as int);
    assert(trimmed_start(text@) == rest);
    let mut to: usize = length;
    assert(text@.subrange(from as int, to as int) =~= rest);
    while to > from && white_space(text.get_char(to - 1))
        invariant
            from <= to <= length,
            length == text@.len(),
            trimmed_end(rest) == trimmed_end(text@.subrange(from as int, to as int)),
        decreases to - from,
    {
        assert(text@.subrange(from as int, to as int).drop_last() =~= text@.subrange(
            from as int,
            to - 1,
        ));
        to -= 1;
    }
    let trimmed_text = text.substring_char(from, to);
    assert(trimmed_text@ =~= text@.subrange(from as int, to as int));
    trimmed_text
}

/// A text begins with another exactly when it is as long and agrees with it character by
/// character. What is left are the characters behind.
pub proof fn lemma_prefixes_agree_character_by_character(
    text: &str,
    prefix: &str,
    rest: Option<&str>,
    trimmed_text: &str,
    k: int,
)
    requires
        call_ensures(strip_prefix, (text, prefix), rest),
        call_ensures(trim_prefix, (text, prefix), trimmed_text),
    ensures
        rest is Some <==> prefix@.len() <= text@.len() && forall|i: int|
            0 <= i < prefix@.len() ==> #[trigger] text@[i] == prefix@[i],
        rest matches Some(rest) ==> {
            &&& prefix@.len() + rest@.len() == text@.len()
            &&& 0 <= k < rest@.len() ==> rest@[k] == text@[prefix@.len() + k]
            &&& trimmed_text@ == rest@
        },
        rest is None ==> trimmed_text@ == text@,
{
    let head = text@.take(prefix@.len() as int);
    if prefix@.len() <= text@.len() && forall|i: int|
        0 <= i < prefix@.len() ==> #[trigger] text@[i] == prefix@[i] {
        assert(head =~= prefix@);
    }
    if rest is Some {
        assert forall|i: int| 0 <= i < prefix@.len() implies #[trigger] text@[i] == prefix@[i] by {
            assert(head[i] == prefix@[i]);
        }
    }
}

/// Two texts are the same exactly when they are as long and agree character by character.
pub proof fn lemma_texts_agree_character_by_character(a: &str, b: &str, same: bool)
    requires
        call_ensures(same_text, (a, b), same),
    ensures
        same <==> a@.len() == b@.len() && forall|i: int|
            0 <= i < a@.len() ==> #[trigger] a@[i] == b@[i],
{
    if a@.len() == b@.len() && forall|i: int| 0 <= i < a@.len() ==> #[trigger] a@[i] == b@[i] {
        assert(a@ =~= b@);
    }
}

/// Joined texts stand one behind the other; a truncated one keeps its first characters.
pub proof fn lemma_characters_keep_their_order(
    a: &str,
    b: &str,
    text: String,
    limit: usize,
    short: String,
    k: int,
)
    requires
        call_ensures(joined, (a, b), text),
        call_ensures(truncated, (a, limit), short),
    ensures
        text@.len() == a@.len() + b@.len(),
        0 <= k < a@.len() ==> text@[k] == a@[k],
        0 <= k < b@.len() ==> text@[a@.len() + k] == b@[k],
        short@.len() <= limit && short@.len() <= a@.len(),
        short@.len() == limit || short@.len() == a@.len(),
        0 <= k < short@.len() ==> short@[k] == a@[k],
{
}

/// A number below ten is written as its digit; any other as a tenth of it, followed by the digit
/// of what is left.
pub proof fn lemma_decimals_are_written_digit_by_digit(n: u32, text: String, tenth: String)
    requires
        call_ensures(decimal_text, (n,), text),
        call_ensures(decimal_text, ((n / 10) as u32,), tenth),
    ensures
        text@.len() > 0,
        text@.last() as u32 == 48 + n % 10,
        n < 10 ==> text@.len() == 1,
        n >= 10 ==> text@.drop_last() == tenth@,
{
    lemma_digit_chars((n % 10) as int);
    if n >= 10 {
        assert(text@.drop_last() =~= tenth@);
    }
}

proof fn lemma_hex_digit(d: int)
    requires
        0 <= d < 16,
    ensures
        digit_chars()[d] as u32 == if d < 10 { 48 + d } else { 87 + d },
{
    reveal_strlit("0123456789abcdef");
}

proof fn lemma_hex_parts(n: int, a: int, b: int, c: int, d: int)
    requires
        n == 4096 * a + 256 * b + 16 * c + d,
        0 <= a < 16 && 0 <= b < 16 && 0 <= c < 16 && 0 <= d < 16,
    ensures
        n / 4096 == a,
        n / 256 % 16 == b,
        n / 16 % 16 == c,
        n % 16 == d,
{
    assert(n / 256 == 16 * a + b);
    assert(n / 16 == 256 * a + 16 * b + c);
}

/// A number is written in four hexadecimal digits, the highest first, in lower case.
pub proof fn lemma_hexadecimals_have_four_digits(
    n: u16,
    text: String,
    a: u16,
    b: u16,
    c: u16,
    d: u16,
)
    requires
        call_ensures(hex4_text, (n,), text),
        n == 4096 * a + 256 * b + 16 * c + d,
        a < 16 && b < 16 && c < 16 && d < 16,
    ensures
        text@.len() == 4,
        text@[0] as u32 == if a < 10 { 48 + a } else { 87 + a },
        text@[1] as u32 == if b < 10 { 48 + b } else { 87 + b },
        text@[2] as u32 == if c < 10 { 48 + c } else { 87 + c },
        text@[3] as u32 == if d < 10 { 48 + d } else { 87 + d },
{
    lemma_hex_parts(n as int, a as int, b as int, c as int, d as int);
    lemma_hex_digit(a as int);
    lemma_hex_digit(b as int);
    lemma_hex_digit(c as int);
    lemma_hex_digit(d as int);
}

/// A byte is read digit by digit, after at most one plus sign: each digit adds to ten times what
/// was read before, as long as that stays below 256. Nothing else is a byte.
pub proof fn lemma_bytes_are_read_digit_by_digit(
    text: &str,
    longer: &str,
    c: char,
    value: Option<u8>,
    result: Option<u8>,
)
    requires
        call_ensures(parse_byte, (text,), value),
        call_ensures(parse_byte, (longer,), result),
        longer@ == text@.push(c),
    ensures
        !('0' <= c <= '9') ==> result is None,
        '0' <= c <= '9' ==> {
            let digit = c as u32 - 48;
            let bare = text@.len() == 0 || text@.len() == 1 && text@[0] == '+';
            &&& bare ==> value is None && result is Some && result->0 == digit
            &&& !bare && value is None ==> result is None
            &&& value is Some ==> {
                &&& result is Some <==> 10 * value->0 + digit <= 255
                &&& result is Some ==> result->0 == 10 * value->0 + digit
            }
        },
{
    let before = if text@.len() > 0 && text@[0] == '+' {
        text@.skip(1)
    } else {
        text@
    };
    let digits = if longer@.len() > 0 && longer@[0] == '+' {
        longer@.skip(1)
    } else {
        longer@
    };
    if text@.len() == 0 {
        if c == '+' {
            assert(digits.len() == 0);
        } else {
            assert(digits =~= seq![c]);
            assert(digits.drop_last() =~= Seq::<char>::empty());
            reveal_with_fuel(digits_value, 2);
            if '0' <= c <= '9' {
                assert(all_digits(digits));
            } else {
                assert(!is_digit(digits[0]));
            }
        }
    } else {
        assert(longer@[0] == text@[0]);
        assert(digits =~= before.push(c));
        assert(digits.drop_last() =~= before);
        assert(digits.last() == c);
        assert(digits[digits.len() - 1] == c);
        if '0' <= c <= '9' {
            if all_digits(before) {
                assert(all_digits(digits));
            } else {
                let i = choose|i: int| 0 <= i < before.len() && !is_digit(#[trigger] before[i]);
                assert(digits[i] == before[i]);
                assert(!all_digits(digits));
            }
            if before.len() == 0 {
                reveal_with_fuel(digits_value, 2);
            }
        } else {
            assert(!is_digit(digits[digits.len() - 1]));
        }
    }
}

/// A path without a dot has one port, if it is a byte. One with a dot has the ports of what
/// stands before its last dot, followed by the byte behind; if either is missing, it has none.
pub proof fn lemma_paths_are_read_port_by_port(
    path: &str,
    head: &str,
    tail: &str,
    all: Option<Vec<u8>>,
    before: Option<Vec<u8>>,
    alone: Option<Vec<u8>>,
    last: Option<u8>,
)
    requires
        call_ensures(parse_ports, (path,), all),
        call_ensures(parse_ports, (head,), before),
        call_ensures(parse_ports, (tail,), alone),
        call_ensures(parse_byte, (tail,), last),
        forall|i: int| 0 <= i < tail@.len() ==> #[trigger] tail@[i] != '.',
        path@ == head@.push('.') + tail@,
    ensures
        alone is Some <==> last is Some,
        alone is Some ==> alone->0@.len() == 1 && alone->0@[0] == last->0,
        all is Some <==> before is Some && last is Some,
        all is Some ==> all->0@ == before->0@.push(last->0),
{
    let empty = Seq::<char>::empty();
    lemma_pieces_append(empty, tail@);
    assert(empty + tail@ =~= tail@);
    assert(dot_pieces(empty).drop_last() =~= Seq::<Seq<char>>::empty());
    assert(dot_pieces(empty).last() + tail@ =~= tail@);
    let single = dot_pieces(tail@);
    assert(single.len() == 1 && single[0] == tail@);
    lemma_pieces_append(head@.push('.'), tail@);
    assert(head@.push('.').drop_last() =~= head@);
    let pieces = dot_pieces(head@);
    let opened = dot_pieces(head@.push('.'));
    assert(opened =~= pieces.push(empty));
    assert(opened.drop_last() =~= pieces);
    assert(opened.last() + tail@ =~= tail@);
    let whole = dot_pieces(path@);
    assert(whole =~= pieces.push(tail@));
    assert forall|i: int| 0 <= i < pieces.len() implies whole[i] == pieces[i] by {}
    assert(whole[pieces.len() as int] == tail@);
    if last is Some {
        assert forall|i: int| 0 <= i < single.len() implies byte_value(#[trigger] single[i]) is Some by {
        }
    } else {
        assert(byte_value(single[0]) is None);
        assert(byte_value(whole[pieces.len() as int]) is None);
    }
    if before is Some {
        if last is Some {
            assert forall|i: int| 0 <= i < whole.len() implies byte_value(
                #[trigger] whole[i],
            ) is Some by {
                if i < pieces.len() {
                    assert(byte_value(pieces[i]) is Some);
                }
            }
            assert(all->0@ =~= before->0@.push(last->0));
        }
    } else {
        let i = choose|i: int| 0 <= i < pieces.len() && byte_value(#[trigger] pieces[i]) is None;
        assert(byte_value(whole[i]) is None);
    }
}

/// A text in quotes begins and ends with a quote. Between them stands every character, a quote or
/// a backslash after a backslash.
pub proof fn lemma_quotes_are_written_character_by_character(
    text: &str,
    longer: &str,
    c: char,
    quote: String,
    result: String,
)
    requires
        call_ensures(quoted_text, (text,), quote),
        call_ensures(quoted_text, (longer,), result),
        longer@ == text@.push(c),
    ensures
        quote@.len() >= 2,
        quote@[0] == '"' && quote@.last() == '"',
        text@.len() == 0 ==> quote@.len() == 2,
        c == '"' || c == '\\' ==> result@ == quote@.drop_last().push('\\').push(c).push('"'),
        c != '"' && c != '\\' ==> result@ == quote@.drop_last().push(c).push('"'),
{
    assert(longer@.drop_last() =~= text@);
    assert(longer@.last() == c);
    assert(quote@.drop_last() =~= seq!['"'] + escaped(text@));
    if c == '"' || c == '\\' {
        assert(result@ =~= quote@.drop_last().push('\\').push(c).push('"'));
    } else {
        assert(result@ =~= quote@.drop_last().push(c).push('"'));
    }
}

/// A character that is blank: a tab, a line break, or a space of any kind.
pub open spec fn is_blank(c: char) -> bool {
    ||| c == ' ' || '\t' <= c <= '\r'
    ||| c == '\u{85}' || c == '\u{a0}' || c == '\u{3000}' || c == '\u{1680}'
    ||| c == '\u{2028}' || c == '\u{2029}' || c == '\u{202f}' || c == '\u{205f}'
    ||| '\u{2000}' <= c <= '\u{200a}'
}

proof fn lemma_trimmed_start(front: Seq<char>, text: Seq<char>)
    requires
        forall|i: int| 0 <= i < front.len() ==> is_white_space(#[trigger] front[i]),
        text.len() > 0 ==> !is_white_space(text[0]),
    ensures
        trimmed_start(front + text) == text,
    decreases front.len(),
{
    if front.len() == 0 {
        assert(front + text =~= text);
    } else {
        let rest = front.skip(1);
        assert(is_white_space(front[0]));
        assert((front + text).skip(1) =~= rest + text);
        assert forall|i: int| 0 <= i < rest.len() implies is_white_space(#[trigger] rest[i]) by {
            assert(rest[i] == front[i + 1]);
        }
        lemma_trimmed_start(rest, text);
    }
}

proof fn lemma_trimmed_end(text: Seq<char>, back: Seq<char>)
    requires
        forall|i: int| 0 <= i < back.len() ==> is_white_space(#[trigger] back[i]),
        text.len() > 0 ==> !is_white_space(text.last()),
    ensures
        trimmed_end(text + back) == text,
    decreases back.len(),
{
    if back.len() == 0 {
        assert(text + back =~= text);
    } else {
        let rest = back.drop_last();
        assert(is_white_space(back[back.len() - 1]));
        assert((text + back).last() == back.last());
        assert((text + back).drop_last() =~= text + rest);
        assert forall|i: int| 0 <= i < rest.len() implies is_white_space(#[trigger] rest[i]) by {
            assert(rest[i] == back[i]);
        }
        lemma_trimmed_end(text, rest);
    }
}

/// Trimming takes away all blanks at both ends of a text, and nothing else.
pub proof fn lemma_blanks_are_trimmed(
    text: &str,
    rest: &str,
    front: Seq<char>,
    body: Seq<char>,
    back: Seq<char>,
)
    requires
        call_ensures(trim, (text,), rest),
        text@ == front + body + back,
        forall|i: int| 0 <= i < front.len() ==> is_blank(#[trigger] front[i]),
        forall|i: int| 0 <= i < back.len() ==> is_blank(#[trigger] back[i]),
        body.len() > 0 ==> !is_blank(body[0]) && !is_blank(body.last()),
        body.len() == 0 ==> back.len() == 0,
    ensures
        rest@ == body,
{
    assert(text@ =~= front + (body + back));
    assert forall|i: int| 0 <= i < front.len() implies is_white_space(#[trigger] front[i]) by {
        assert(is_blank(front[i]));
    }
    assert forall|i: int| 0 <= i < back.len() implies is_white_space(#[trigger] back[i]) by {
        assert(is_blank(back[i]));
    }
    lemma_trimmed_start(front, body + back);
    lemma_trimmed_end(body, back);
}

} // verus!
