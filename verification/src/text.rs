//! Numbers as text, and lists of texts as one.

use vstd::prelude::*;
use vstd::string::{StrSliceExecFns, StringExecFns};

verus! {

/// The digit that stands for a number under ten.
pub open spec fn digit(d: nat) -> char {
    if d == 0 {
        '0'
    } else if d == 1 {
        '1'
    } else if d == 2 {
        '2'
    } else if d == 3 {
        '3'
    } else if d == 4 {
        '4'
    } else if d == 5 {
        '5'
    } else if d == 6 {
        '6'
    } else if d == 7 {
        '7'
    } else if d == 8 {
        '8'
    } else {
        '9'
    }
}

/// A natural number in decimal, without leading zeros.
pub open spec fn digits(n: nat) -> Seq<char>
    decreases n,
{
    if n < 10 {
        seq![digit(n)]
    } else {
        digits(n / 10).push(digit(n % 10))
    }
}

/// A text is the decimal of one number only.
pub proof fn digits_are_unique(a: nat, b: nat)
    requires
        digits(a) == digits(b),
    ensures
        a == b,
    decreases a,
{
    lemma_digit_is_unique(a % 10, b % 10);
    if a < 10 || b < 10 {
        lemma_more_digits(a);
        lemma_more_digits(b);
        assert(digits(a).last() == digit(a % 10));
        assert(digits(b).last() == digit(b % 10));
    } else {
        assert(digits(a).last() == digit(a % 10));
        assert(digits(b).last() == digit(b % 10));
        assert(digits(a).drop_last() =~= digits(a / 10));
        assert(digits(b).drop_last() =~= digits(b / 10));
        digits_are_unique(a / 10, b / 10);
    }
}

proof fn lemma_more_digits(n: nat)
    ensures
        digits(n).len() >= 1,
        n >= 10 ==> digits(n).len() >= 2,
    decreases n,
{
    if n >= 10 {
        lemma_more_digits(n / 10);
    }
}

proof fn lemma_digit_is_unique(a: nat, b: nat)
    requires
        a < 10,
        b < 10,
    ensures
        digit(a) == digit(b) ==> a == b,
{
}

/// The text of one digit.
fn digit_text(d: u128) -> (s: &'static str)
    requires
        d < 10,
    ensures
        s@ == seq![digit(d as nat)],
{
    proof {
        reveal_strlit("0");
        reveal_strlit("1");
        reveal_strlit("2");
        reveal_strlit("3");
        reveal_strlit("4");
        reveal_strlit("5");
        reveal_strlit("6");
        reveal_strlit("7");
        reveal_strlit("8");
        reveal_strlit("9");
    }
    let s = if d == 0 {
        "0"
    } else if d == 1 {
        "1"
    } else if d == 2 {
        "2"
    } else if d == 3 {
        "3"
    } else if d == 4 {
        "4"
    } else if d == 5 {
        "5"
    } else if d == 6 {
        "6"
    } else if d == 7 {
        "7"
    } else if d == 8 {
        "8"
    } else {
        "9"
    };
    assert(s@ =~= seq![digit(d as nat)]);
    s
}

/// Writes a natural number in decimal.
pub fn natural(n: u128) -> (s: String)
    ensures
        s@ == digits(n as nat),
    decreases n,
{
    if n < 10 {
        let mut s = String::new();
        s.append(digit_text(n));
        assert(s@ =~= digits(n as nat));
        s
    } else {
        let mut s = natural(n / 10);
        s.append(digit_text(n % 10));
        assert(s@ =~= digits(n as nat));
        s
    }
}

/// Two texts, one after the other.
pub fn joined(a: &str, b: &str) -> (s: String)
    ensures
        s@ == a@ + b@,
{
    let mut s = String::new();
    s.append(a);
    s.append(b);
    assert(s@ =~= a@ + b@);
    s
}

/// The digits of a fraction that is `n` parts of ten to the power of `places`, without the
/// zeros at its end.
pub open spec fn fraction(n: nat, places: nat) -> Seq<char>
    decreases places,
{
    if places == 0 || n == 0 {
        Seq::empty()
    } else if n % 10 == 0 {
        fraction(n / 10, (places - 1) as nat)
    } else {
        padded(n, places)
    }
}

/// A number in exactly `places` digits, with leading zeros (and without what lies above them).
pub open spec fn padded(n: nat, places: nat) -> Seq<char>
    decreases places,
{
    if places == 0 {
        Seq::empty()
    } else {
        padded(n / 10, (places - 1) as nat).push(digit(n % 10))
    }
}

fn padded_text(n: u128, places: u32) -> (s: String)
    ensures
        s@ == padded(n as nat, places as nat),
    decreases places,
{
    if places == 0 {
        let s = String::new();
        assert(s@ =~= padded(n as nat, places as nat));
        s
    } else {
        let mut s = padded_text(n / 10, places - 1);
        s.append(digit_text(n % 10));
        assert(s@ =~= padded(n as nat, places as nat));
        s
    }
}

fn fraction_text(n: u128, places: u32) -> (s: String)
    ensures
        s@ == fraction(n as nat, places as nat),
    decreases places,
{
    if places == 0 || n == 0 {
        let s = String::new();
        assert(s@ =~= fraction(n as nat, places as nat));
        s
    } else if n % 10 == 0 {
        fraction_text(n / 10, places - 1)
    } else {
        padded_text(n, places)
    }
}

/// Ten to the power of `n`.
pub open spec fn pow10(n: nat) -> nat
    decreases n,
{
    if n == 0 {
        1
    } else {
        10 * pow10((n - 1) as nat)
    }
}

/// A number in units of ten to the power of `-places`, as a decimal: a minus sign if it is
/// negative, the whole part, and, unless it is zero, a point and the fraction.
pub open spec fn decimal(x: int, places: nat) -> Seq<char> {
    let m = if x < 0 {
        (-x) as nat
    } else {
        x as nat
    };
    let sign = if x < 0 {
        seq!['-']
    } else {
        Seq::<char>::empty()
    };
    let f = fraction(m % pow10(places), places);
    sign + digits(m / pow10(places)) + (if f.len() == 0 {
        Seq::<char>::empty()
    } else {
        seq!['.'] + f
    })
}

/// The size of a number without its sign.
pub fn magnitude(x: i128) -> (m: u128)
    ensures
        m == if x < 0 { -x } else { x as int },
{
    if x >= 0 {
        x as u128
    } else if x == i128::MIN {
        170141183460469231731687303715884105728
    } else {
        (-x) as u128
    }
}

/// Ten to the power of `n`, for the powers that a `u128` holds.
pub fn ten_to(n: u32) -> (p: u128)
    requires
        n <= 38,
    ensures
        p == pow10(n as nat),
        p >= 1,
{
    let mut p: u128 = 1;
    let mut i: u32 = 0;
    assert(pow10(38) == 100000000000000000000000000000000000000) by {
        reveal_with_fuel(pow10, 39);
    }
    while i < n
        invariant
            i <= n <= 38,
            p == pow10(i as nat),
            p >= 1,
            pow10(38) == 100000000000000000000000000000000000000,
        decreases n - i,
    {
        proof {
            lemma_pow10_monotone((i + 1) as nat, 38);
        }
        p = p * 10;
        i = i + 1;
    }
    p
}

/// A higher power of ten is not smaller.
pub proof fn lemma_pow10_monotone(a: nat, b: nat)
    requires
        a <= b,
    ensures
        1 <= pow10(a) <= pow10(b),
    decreases b,
{
    if a < b {
        lemma_pow10_monotone(a, (b - 1) as nat);
    } else if a > 0 {
        lemma_pow10_monotone((a - 1) as nat, (a - 1) as nat);
    }
}

/// Writes a number in units of ten to the power of `-places` as a decimal.
pub fn decimal_text(x: i128, places: u32) -> (s: String)
    requires
        places <= 38,
    ensures
        s@ == decimal(x as int, places as nat),
{
    proof {
        reveal_strlit("-");
        reveal_strlit(".");
    }
    let m = magnitude(x);
    let unit = ten_to(places);
    let mut s = String::new();
    if x < 0 {
        s.append("-");
    }
    let whole = natural(m / unit);
    s.append(whole.as_str());
    let f = fraction_text(m % unit, places);
    if !f.as_str().is_empty() {
        s.append(".");
        s.append(f.as_str());
    }
    assert("-"@ =~= seq!['-']);
    assert("."@ =~= seq!['.']);
    assert(s@ =~= decimal(x as int, places as nat));
    s
}

/// The texts with a separator between each two.
pub open spec fn join(parts: Seq<Seq<char>>, sep: Seq<char>) -> Seq<char>
    decreases parts.len(),
{
    if parts.len() == 0 {
        Seq::empty()
    } else if parts.len() == 1 {
        parts[0]
    } else {
        join(parts.drop_last(), sep) + sep + parts.last()
    }
}

/// The views of a list of strings.
pub open spec fn views(parts: Seq<String>) -> Seq<Seq<char>> {
    parts.map_values(|s: String| s@)
}

/// Writes the texts with a separator between each two.
pub fn join_text(parts: &Vec<String>, sep: &str) -> (s: String)
    ensures
        s@ == join(views(parts@), sep@),
{
    let mut s = String::new();
    let mut i: usize = 0;
    while i < parts.len()
        invariant
            i <= parts.len(),
            s@ == join(views(parts@).take(i as int), sep@),
        decreases parts.len() - i,
    {
        assert(views(parts@).take(i + 1).drop_last() =~= views(parts@).take(i as int));
        if i > 0 {
            s.append(sep);
        }
        s.append(parts[i].as_str());
        assert(s@ =~= join(views(parts@).take(i + 1), sep@));
        i = i + 1;
    }
    assert(views(parts@).take(i as int) =~= views(parts@));
    s
}

/// The digit that stands for a number under sixteen.
pub open spec fn hex_digit(d: nat) -> char {
    if d < 10 {
        digit(d)
    } else if d == 10 {
        'a'
    } else if d == 11 {
        'b'
    } else if d == 12 {
        'c'
    } else if d == 13 {
        'd'
    } else if d == 14 {
        'e'
    } else {
        'f'
    }
}

/// A number in exactly `places` hexadecimal digits, with leading zeros (and without what lies
/// above them).
pub open spec fn hex(n: nat, places: nat) -> Seq<char>
    decreases places,
{
    if places == 0 {
        Seq::empty()
    } else {
        hex(n / 16, (places - 1) as nat).push(hex_digit(n % 16))
    }
}

fn hex_digit_text(d: u64) -> (s: &'static str)
    requires
        d < 16,
    ensures
        s@ == seq![hex_digit(d as nat)],
{
    if d < 10 {
        digit_text(d as u128)
    } else {
        proof {
            reveal_strlit("a");
            reveal_strlit("b");
            reveal_strlit("c");
            reveal_strlit("d");
            reveal_strlit("e");
            reveal_strlit("f");
        }
        let s = if d == 10 {
            "a"
        } else if d == 11 {
            "b"
        } else if d == 12 {
            "c"
        } else if d == 13 {
            "d"
        } else if d == 14 {
            "e"
        } else {
            "f"
        };
        assert(s@ =~= seq![hex_digit(d as nat)]);
        s
    }
}

/// Writes the low digits of a number in hexadecimal.
pub fn hex_text(n: u64, places: u32) -> (s: String)
    ensures
        s@ == hex(n as nat, places as nat),
    decreases places,
{
    if places == 0 {
        let s = String::new();
        assert(s@ =~= hex(n as nat, places as nat));
        s
    } else {
        let mut s = hex_text(n / 16, places - 1);
        s.append(hex_digit_text(n % 16));
        assert(s@ =~= hex(n as nat, places as nat));
        s
    }
}

/// Whether the text begins with the prefix.
pub open spec fn has_prefix(text: Seq<char>, prefix: Seq<char>) -> bool {
    prefix.len() <= text.len() && text.take(prefix.len() as int) == prefix
}

/// Whether the text begins with the prefix.
pub fn starts_with(text: &str, prefix: &str) -> (b: bool)
    ensures
        b == has_prefix(text@, prefix@),
{
    let n = prefix.unicode_len();
    if n > text.unicode_len() {
        return false;
    }
    let mut i: usize = 0;
    while i < n
        invariant
            i <= n,
            n == prefix@.len(),
            n <= text@.len(),
            forall|j: int| 0 <= j < i ==> text@[j] == prefix@[j],
        decreases n - i,
    {
        if text.get_char(i) != prefix.get_char(i) {
            assert(text@.take(n as int)[i as int] != prefix@[i as int]);
            return false;
        }
        i = i + 1;
    }
    assert(text@.take(n as int) =~= prefix@);
    true
}

/// Whether two texts are the same.
pub fn same_text(a: &str, b: &str) -> (r: bool)
    ensures
        r == (a@ == b@),
{
    if a.unicode_len() != b.unicode_len() {
        return false;
    }
    let r = starts_with(a, b);
    assert(a@.take(a@.len() as int) =~= a@);
    r
}

/// Whether a text comes before another, or is the same: by the first character in which they
/// differ, or by length.
pub open spec fn in_order(a: Seq<char>, b: Seq<char>) -> bool
    decreases a.len(),
{
    if a.len() == 0 {
        true
    } else if b.len() == 0 {
        false
    } else if a[0] != b[0] {
        a[0] < b[0]
    } else {
        in_order(a.skip(1), b.skip(1))
    }
}

/// Of two texts, one comes before the other.
pub proof fn lemma_order_is_total(a: Seq<char>, b: Seq<char>)
    ensures
        in_order(a, b) || in_order(b, a),
    decreases a.len(),
{
    if a.len() > 0 && b.len() > 0 && a[0] == b[0] {
        lemma_order_is_total(a.skip(1), b.skip(1));
    }
}

/// What comes before a text comes before what the text comes before.
pub proof fn lemma_order_is_transitive(a: Seq<char>, b: Seq<char>, c: Seq<char>)
    requires
        in_order(a, b),
        in_order(b, c),
    ensures
        in_order(a, c),
    decreases a.len(),
{
    if a.len() > 0 && b.len() > 0 && c.len() > 0 && a[0] == b[0] && b[0] == c[0] {
        lemma_order_is_transitive(a.skip(1), b.skip(1), c.skip(1));
    }
}

/// Whether a text comes before another, or is the same.
pub fn comes_before(a: &str, b: &str) -> (r: bool)
    ensures
        r == in_order(a@, b@),
{
    let n = a.unicode_len();
    let m = b.unicode_len();
    let mut i: usize = 0;
    assert(a@.skip(0) =~= a@);
    assert(b@.skip(0) =~= b@);
    while i < n
        invariant
            i <= n,
            i <= m,
            n == a@.len(),
            m == b@.len(),
            in_order(a@, b@) == in_order(a@.skip(i as int), b@.skip(i as int)),
        decreases n - i,
    {
        if i >= m {
            return false;
        }
        let x = a.get_char(i);
        let y = b.get_char(i);
        assert(a@.skip(i as int)[0] == x);
        assert(b@.skip(i as int)[0] == y);
        if x != y {
            return x < y;
        }
        assert(a@.skip(i as int).skip(1) =~= a@.skip(i + 1));
        assert(b@.skip(i as int).skip(1) =~= b@.skip(i + 1));
        i = i + 1;
    }
    true
}

/// Whether the texts stand in order.
pub open spec fn sorted(list: Seq<Seq<char>>) -> bool {
    forall|i: int, j: int| 0 <= i <= j < list.len() ==> in_order(#[trigger] list[i], #[trigger] list[j])
}

/// Puts a text into a list in order.
fn put_in_order(list: &mut Vec<String>, new: String)
    requires
        sorted(views(old(list)@)),
    ensures
        sorted(views(final(list)@)),
        views(final(list)@).to_multiset() == views(old(list)@).to_multiset().insert(new@),
{
    let ghost before = views(list@);
    let ghost x = new@;
    let mut i: usize = 0;
    while i < list.len() && comes_before(list[i].as_str(), new.as_str())
        invariant
            i <= list.len(),
            views(list@) == before,
            x == new@,
            forall|j: int| 0 <= j < i ==> in_order(#[trigger] before[j], x),
        decreases list.len() - i,
    {
        assert(before[i as int] == list@[i as int]@);
        i = i + 1;
    }
    proof {
        if i < before.len() {
            assert(before[i as int] == list@[i as int]@);
            lemma_order_is_total(before[i as int], x);
            assert forall|j: int| i <= j < before.len() implies in_order(x, #[trigger] before[j]) by {
                assert(in_order(before[i as int], before[j]));
                lemma_order_is_transitive(x, before[i as int], before[j]);
            }
        }
        lemma_order_is_total(x, x);
    }
    list.insert(i, new);
    proof {
        let after = views(list@);
        assert(after =~= before.insert(i as int, x));
        assert forall|a: int, b: int| 0 <= a <= b < after.len() implies in_order(#[trigger] after[a], #[trigger] after[b]) by {
            let a2 = if a < i { a } else { a - 1 };
            let b2 = if b < i { b } else { b - 1 };
            if a == i && b == i {
            } else if a == i {
                assert(after[b] == before[b2]);
            } else if b == i {
                assert(after[a] == before[a2]);
            } else {
                assert(after[a] == before[a2]);
                assert(after[b] == before[b2]);
                assert(in_order(before[a2], before[b2]));
            }
        }
        vstd::seq_lib::to_multiset_insert(before, i as int, x);
    }
}

/// The texts in order.
pub fn sort(list: Vec<String>) -> (r: Vec<String>)
    ensures
        sorted(views(r@)),
        views(r@).to_multiset() == views(list@).to_multiset(),
{
    let mut r: Vec<String> = Vec::new();
    let mut i: usize = 0;
    let ghost all = views(list@);
    assert(views(r@) =~= all.take(0));
    while i < list.len()
        invariant
            i <= list.len(),
            all == views(list@),
            sorted(views(r@)),
            views(r@).to_multiset() == all.take(i as int).to_multiset(),
        decreases list.len() - i,
    {
        proof {
            broadcast use vstd::seq_lib::group_to_multiset_ensures;

            assert(all.take(i + 1) =~= all.take(i as int).push(all[i as int]));
        }
        put_in_order(&mut r, list[i].clone());
        i = i + 1;
    }
    assert(all.take(i as int) =~= all);
    r
}

/// What a text looks like as a literal.
pub uninterp spec fn literal(text: Seq<char>) -> Seq<char>;

/// Calls the `Debug` of `str`: the text as a literal, between quotes and with escapes where it needs
/// them. Which characters need one is left to the standard library.
#[verifier::external_body]
fn debug_text(text: &str) -> (s: String)
    ensures
        s@ == literal(text@),
{
    format!("{:?}", text)
}

/// Whether a character stands for itself in a literal, whatever is around it.
pub open spec fn is_plain_char(c: char) -> bool {
    ('a' <= c && c <= 'z') || ('A' <= c && c <= 'Z') || ('0' <= c && c <= '9') || c == '-' || c == '_' || c == '/' || c
        == '.' || c == ':'
}

/// Whether a text is made of such characters.
pub open spec fn is_plain(text: Seq<char>) -> bool {
    forall|i: int| 0 <= i < text.len() ==> is_plain_char(#[trigger] text[i])
}

/// A text as a literal: a plain one between quotes, any other with escapes too.
pub open spec fn quoted(text: Seq<char>) -> Seq<char> {
    if is_plain(text) {
        "\""@ + text + "\""@
    } else {
        literal(text)
    }
}

/// The text as a literal.
pub fn quote(text: &str) -> (s: String)
    ensures
        s@ == quoted(text@),
{
    let n = text.unicode_len();
    let mut i: usize = 0;
    while i < n
        invariant
            i <= n,
            n == text@.len(),
            forall|j: int| 0 <= j < i ==> is_plain_char(#[trigger] text@[j]),
        decreases n - i,
    {
        let c = text.get_char(i);
        let plain = ('a' <= c && c <= 'z') || ('A' <= c && c <= 'Z') || ('0' <= c && c <= '9') || c == '-' || c == '_'
            || c == '/' || c == '.' || c == ':';
        if !plain {
            return debug_text(text);
        }
        i = i + 1;
    }
    let mut s = joined("\"", text);
    s.append("\"");
    s
}

/// The number that decimal digits stand for.
pub open spec fn read(text: Seq<char>) -> int
    decreases text.len(),
{
    if text.len() == 0 {
        0
    } else {
        10 * read(text.drop_last()) + (text.last() as int - '0' as int)
    }
}

/// Whether a text is of decimal digits alone.
pub open spec fn is_number(text: Seq<char>) -> bool {
    forall|i: int| 0 <= i < text.len() ==> '0' <= #[trigger] text[i] && text[i] <= '9'
}

proof fn lemma_digit(d: nat)
    requires
        d < 10,
    ensures
        digit(d) as int - '0' as int == d,
        '0' <= digit(d) <= '9',
{
}

/// The digits of a number stand for it, and do not start with a zero but for zero itself.
pub proof fn digits_stand_for_their_number(n: nat)
    ensures
        read(digits(n)) == n,
        is_number(digits(n)),
        digits(n).len() > 0,
        n > 0 ==> digits(n)[0] != '0',
    decreases n,
{
    if n < 10 {
        lemma_digit(n);
        reveal_with_fuel(read, 2);
        assert(digits(n).drop_last() =~= Seq::<char>::empty());
    } else {
        digits_stand_for_their_number(n / 10);
        lemma_digit(n % 10);
        assert(digits(n).drop_last() =~= digits(n / 10));
        assert(digits(n)[0] == digits(n / 10)[0]);
    }
}

/// A number padded to some places stands for what is left of it in these places.
pub proof fn padding_keeps_the_places_asked_for(n: nat, places: nat)
    ensures
        padded(n, places).len() == places,
        is_number(padded(n, places)),
        read(padded(n, places)) == n % pow10(places),
    decreases places,
{
    if places == 0 {
        assert(n % 1 == 0);
    } else {
        let fewer = (places - 1) as nat;
        padding_keeps_the_places_asked_for(n / 10, fewer);
        lemma_digit(n % 10);
        assert(padded(n, places).drop_last() =~= padded(n / 10, fewer));
        lemma_pow10_monotone(0, fewer);
        let p = pow10(fewer) as int;
        let m = n as int;
        vstd::arithmetic::div_mod::lemma_mod_breakdown(m, 10, p);
        assert(pow10(places) == 10 * p);
        assert(m % (10 * p) == 10 * ((m / 10) % p) + m % 10);
    }
}

/// The digits after the point stand for the fraction, none of them at the end a zero.
pub proof fn a_fraction_stands_for_what_is_left(n: nat, places: nat)
    requires
        n < pow10(places),
    ensures
        fraction(n, places).len() <= places,
        is_number(fraction(n, places)),
        read(fraction(n, places)) * pow10((places - fraction(n, places).len()) as nat) == n,
        fraction(n, places).len() > 0 ==> fraction(n, places).last() != '0',
        fraction(n, places).len() == 0 <==> n == 0,
    decreases places,
{
    if places == 0 || n == 0 {
        assert(read(fraction(n, places)) == 0);
        assert(0 * pow10((places - fraction(n, places).len()) as nat) == 0) by (nonlinear_arith);
    } else if n % 10 == 0 {
        let fewer = (places - 1) as nat;
        assert(pow10(places) == 10 * pow10(fewer));
        a_fraction_stands_for_what_is_left(n / 10, fewer);
        let f = fraction(n / 10, fewer);
        let a = pow10((fewer - f.len()) as nat) as int;
        assert(pow10((places - f.len()) as nat) == 10 * a);
        assert(read(f) * (10 * a) == 10 * (read(f) * a)) by (nonlinear_arith);
    } else {
        padding_keeps_the_places_asked_for(n, places);
        lemma_pow10_monotone(0, places);
        vstd::arithmetic::div_mod::lemma_small_mod(n, pow10(places));
        assert(pow10(0) == 1);
        assert((places - fraction(n, places).len()) as nat == 0);
        assert(read(padded(n, places)) * 1 == read(padded(n, places))) by (nonlinear_arith);
        lemma_digit(n % 10);
        assert(padded(n, places).last() == digit(n % 10));
    }
}

/// A decimal starts with a minus exactly when it is below zero, then has the digits of its whole part, and
/// after a point those of the fraction where there is one.
pub proof fn a_decimal_stands_for_its_number(x: int, places: nat)
    ensures
        ({
            let m = if x < 0 { (-x) as nat } else { x as nat };
            let whole = digits(m / pow10(places));
            let f = fraction(m % pow10(places), places);
            let start: int = if x < 0 { 1 } else { 0 };
            let text = decimal(x, places);
            &&& x < 0 ==> text[0] == '-'
            &&& x >= 0 ==> text[0] != '-'
            &&& read(whole) == m / pow10(places)
            &&& text.subrange(start, start + whole.len()) == whole
            &&& read(f) * pow10((places - f.len()) as nat) == m % pow10(places)
            &&& m % pow10(places) == 0 ==> text.len() == start + whole.len()
            &&& m % pow10(places) != 0 ==> {
                &&& text.len() == start + whole.len() + 1 + f.len()
                &&& text[start + whole.len()] == '.'
                &&& text.skip(start + whole.len() + 1) == f
            }
        }),
{
    let m = if x < 0 { (-x) as nat } else { x as nat };
    lemma_pow10_monotone(0, places);
    let whole = digits(m / pow10(places));
    let f = fraction(m % pow10(places), places);
    let start: int = if x < 0 { 1 } else { 0 };
    digits_stand_for_their_number(m / pow10(places));
    vstd::arithmetic::div_mod::lemma_mod_bound(m as int, pow10(places) as int);
    a_fraction_stands_for_what_is_left(m % pow10(places), places);
    let text = decimal(x, places);
    assert(text.subrange(start, start + whole.len()) =~= whole);
    if x >= 0 {
        assert(text[0] == whole[0]);
    }
    if f.len() > 0 {
        assert(text.skip(start + whole.len() + 1) =~= f);
    }
}

/// The number that a hexadecimal digit stands for.
pub open spec fn hex_value(c: char) -> int {
    if '0' <= c && c <= '9' {
        c as int - '0' as int
    } else {
        c as int - 'a' as int + 10
    }
}

/// The number that hexadecimal digits stand for.
pub open spec fn read_hex(text: Seq<char>) -> int
    decreases text.len(),
{
    if text.len() == 0 {
        0
    } else {
        16 * read_hex(text.drop_last()) + hex_value(text.last())
    }
}

/// Hexadecimal digits stand for their number, as far as it has room in the places asked for.
pub proof fn hexadecimal_stands_for_its_number(n: nat, places: nat)
    requires
        n < vstd::arithmetic::power::pow(16, places),
    ensures
        hex(n, places).len() == places,
        read_hex(hex(n, places)) == n,
    decreases places,
{
    reveal(vstd::arithmetic::power::pow);
    if places > 0 {
        let fewer = (places - 1) as nat;
        assert(n / 16 < vstd::arithmetic::power::pow(16, fewer)) by (nonlinear_arith)
            requires
                n < 16 * vstd::arithmetic::power::pow(16, fewer),
        ;
        hexadecimal_stands_for_its_number(n / 16, fewer);
        assert(hex(n, places).drop_last() =~= hex(n / 16, fewer));
        assert(hex_value(hex_digit(n % 16)) == n % 16);
    }
}

/// Joined parts come one after the other with the separator between them: the last ends the text, and
/// what comes before it and the separator is the others, joined.
pub proof fn joined_parts_are_kept_whole(parts: Seq<Seq<char>>, sep: Seq<char>)
    requires
        parts.len() > 0,
    ensures
        parts.len() == 1 ==> join(parts, sep) == parts[0],
        parts.len() > 1 ==> {
            let all = join(parts, sep);
            let rest = join(parts.drop_last(), sep);
            &&& all.len() == rest.len() + sep.len() + parts.last().len()
            &&& all.take(rest.len() as int) == rest
            &&& all.subrange(rest.len() as int, (rest.len() + sep.len()) as int) == sep
            &&& all.skip((rest.len() + sep.len()) as int) == parts.last()
        },
{
    if parts.len() > 1 {
        let all = join(parts, sep);
        let rest = join(parts.drop_last(), sep);
        assert(all.take(rest.len() as int) =~= rest);
        assert(all.subrange(rest.len() as int, (rest.len() + sep.len()) as int) =~= sep);
        assert(all.skip((rest.len() + sep.len()) as int) =~= parts.last());
    }
}

/// Texts are ordered by the first character in which they differ, and a text comes before any that goes
/// on from it.
pub proof fn the_first_difference_orders_texts(a: Seq<char>, b: Seq<char>, k: int)
    requires
        0 <= k <= a.len(),
        k <= b.len(),
        forall|i: int| 0 <= i < k ==> #[trigger] a[i] == b[i],
    ensures
        k == a.len() ==> in_order(a, b),
        k == b.len() && k < a.len() ==> !in_order(a, b),
        k < a.len() && k < b.len() && a[k] != b[k] ==> in_order(a, b) == (a[k] < b[k]),
    decreases a.len(),
{
    if a.len() > 0 && b.len() > 0 && k > 0 {
        assert(a[0] == b[0]);
        assert forall|i: int| 0 <= i < k - 1 implies #[trigger] a.skip(1)[i] == b.skip(1)[i] by {
            assert(a[i + 1] == b[i + 1]);
        }
        the_first_difference_orders_texts(a.skip(1), b.skip(1), k - 1);
    }
}

/// A text starts with another exactly when that is no longer and agrees with it place by place.
pub proof fn a_prefix_agrees_place_by_place(text: Seq<char>, prefix: Seq<char>)
    ensures
        has_prefix(text, prefix) <==> prefix.len() <= text.len() && forall|i: int|
            0 <= i < prefix.len() ==> #[trigger] text[i] == prefix[i],
{
    if prefix.len() <= text.len() && forall|i: int| 0 <= i < prefix.len() ==> #[trigger] text[i] == prefix[i] {
        assert(text.take(prefix.len() as int) =~= prefix);
    }
    if has_prefix(text, prefix) {
        assert forall|i: int| 0 <= i < prefix.len() implies #[trigger] text[i] == prefix[i] by {
            assert(text.take(prefix.len() as int)[i] == text[i]);
        }
    }
}

/// Whether a text holds another.
#[verifier::opaque]
pub open spec fn holds(text: Seq<char>, part: Seq<char>) -> bool {
    exists|k: int| 0 <= k <= text.len() - part.len() && #[trigger] text.subrange(k, k + part.len()) == part
}

/// A text holds itself, and what it holds is still there with more around it.
pub proof fn what_is_held_stays_held(before: Seq<char>, text: Seq<char>, after: Seq<char>, part: Seq<char>)
    ensures
        holds(text, text),
        holds(text, part) ==> holds(before + text + after, part),
{
    reveal(holds);
    let start: int = 0;
    assert(text.subrange(start, start + text.len()) =~= text);
    if holds(text, part) {
        let k = choose|k: int| 0 <= k <= text.len() - part.len() && #[trigger] text.subrange(k, k + part.len()) == part;
        let all = before + text + after;
        let n = before.len() + k;
        assert(all.subrange(n, n + part.len()) =~= part) by {
            assert forall|i: int| 0 <= i < part.len() implies #[trigger] all.subrange(n, n + part.len())[i] == part[i] by {
                assert(text.subrange(k, k + part.len())[i] == part[i]);
            }
        }
    }
}

/// Joined parts are all held.
pub proof fn joining_loses_no_part(parts: Seq<Seq<char>>, sep: Seq<char>, i: int)
    requires
        0 <= i < parts.len(),
    ensures
        holds(join(parts, sep), parts[i]),
    decreases parts.len(),
{
    if parts.len() == 1 {
        what_is_held_stays_held(Seq::empty(), parts[0], Seq::empty(), parts[0]);
    } else {
        let rest = parts.drop_last();
        let all = join(parts, sep);
        if i < rest.len() {
            assert(rest[i] == parts[i]);
            joining_loses_no_part(rest, sep, i);
            what_is_held_stays_held(Seq::empty(), join(rest, sep), sep + parts.last(), parts[i]);
            assert(Seq::<char>::empty() + join(rest, sep) + (sep + parts.last()) =~= all);
        } else {
            assert(parts[i] == parts.last());
            what_is_held_stays_held(join(rest, sep) + sep, parts[i], Seq::empty(), parts[i]);
            assert(join(rest, sep) + sep + parts[i] + Seq::<char>::empty() =~= all);
        }
    }
}

/// A plain text is quoted as it is, between two quotation marks.
pub proof fn plain_text_is_quoted_as_it_is(text: Seq<char>)
    requires
        is_plain(text),
    ensures
        quoted(text).len() == text.len() + 2,
        quoted(text)[0] == '"',
        quoted(text).last() == '"',
        quoted(text).subrange(1, text.len() as int + 1) == text,
{
    reveal_strlit("\"");
    assert(quoted(text).subrange(1, text.len() as int + 1) =~= text);
}

} // verus!
