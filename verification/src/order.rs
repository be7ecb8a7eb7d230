use vstd::prelude::*;
use vstd::utf8::encode_utf8;
use crate::models::{Column, ColumnValue, Date, IdMarker, Row};

verus! {

/// The result of comparing two values.
#[derive(Clone, Copy, Debug, PartialEq, Eq, Structural)]
pub enum Order {
    Less,
    Equal,
    Greater,
}

impl Order {
    /// The result of the comparison with its operands swapped.
    pub open spec fn reverse(self) -> Order {
        match self {
            Order::Less => Order::Greater,
            Order::Equal => Order::Equal,
            Order::Greater => Order::Less,
        }
    }
}

/// The bit pattern is an IEEE-754 binary64 NaN: all exponent bits set and a
/// non-zero fraction.
pub open spec fn float_is_nan(bits: u64) -> bool {
    &&& (bits >> 52u64) & 0x7ffu64 == 0x7ffu64
    &&& bits & 0xf_ffff_ffff_ffffu64 != 0u64
}

/// The bits of a binary64 value without its sign bit; among values of the
/// same sign that are not NaN, a larger magnitude is a larger absolute value.
pub open spec fn float_magnitude(bits: u64) -> u64 {
    bits & 0x7fff_ffff_ffff_ffffu64
}

/// The sign bit of a binary64 value is set.
pub open spec fn float_negative(bits: u64) -> bool {
    bits >> 63u64 == 1u64
}

/// `a < b` for the binary64 values with bit patterns `a` and `b`: false when
/// either is NaN, false between the two zeros, and otherwise the order of
/// the real values (negative values below non-negative ones, a negative value
/// of larger magnitude below one of smaller magnitude).
pub open spec fn float_lt(a: u64, b: u64) -> bool {
    &&& !float_is_nan(a)
    &&& !float_is_nan(b)
    &&& !(float_magnitude(a) == 0 && float_magnitude(b) == 0)
    &&& {
        ||| float_negative(a) && !float_negative(b)
        ||| !float_negative(a) && !float_negative(b) && float_magnitude(a) < float_magnitude(b)
        ||| float_negative(a) && float_negative(b) && float_magnitude(b) < float_magnitude(a)
    }
}

/// Two numbers compare as `Greater` when the first is greater, `Less` when it
/// is less, and `Equal` otherwise (equal values, or a NaN on either side).
pub open spec fn number_order(a: u64, b: u64) -> Order {
    if float_lt(b, a) {
        Order::Greater
    } else if float_lt(a, b) {
        Order::Less
    } else {
        Order::Equal
    }
}

/// `a == b` for the binary64 values with bit patterns `a` and `b`: false
/// when either is NaN, true between the two zeros, and otherwise equality
/// of the bit patterns.
pub open spec fn float_eq(a: u64, b: u64) -> bool {
    &&& !float_is_nan(a)
    &&& !float_is_nan(b)
    &&& (a == b || (float_magnitude(a) == 0 && float_magnitude(b) == 0))
}

/// Two values are equal: of the same kind, and equal as texts, as numbers
/// (`float_eq`) or as dates.
pub open spec fn values_equal(a: ColumnValue<String>, b: ColumnValue<String>) -> bool {
    match (a, b) {
        (ColumnValue::Float(x), ColumnValue::Float(y)) => float_eq(x, y),
        (ColumnValue::String(x), ColumnValue::String(y)) => x@ == y@,
        (ColumnValue::Date(x), ColumnValue::Date(y)) => x == y,
        _ => false,
    }
}

/// Lexicographic order of byte sequences; a proper prefix comes first.
pub open spec fn bytes_order(a: Seq<u8>, b: Seq<u8>) -> Order
    decreases a.len(),
{
    if a.len() == 0 {
        if b.len() == 0 {
            Order::Equal
        } else {
            Order::Less
        }
    } else if b.len() == 0 {
        Order::Greater
    } else if a[0] < b[0] {
        Order::Less
    } else if a[0] > b[0] {
        Order::Greater
    } else {
        bytes_order(a.drop_first(), b.drop_first())
    }
}

/// The order of two texts: the lexicographic order of their UTF-8 encodings.
pub open spec fn text_order(a: Seq<char>, b: Seq<char>) -> Order {
    bytes_order(encode_utf8(a), encode_utf8(b))
}

/// Chronological order of dates: by year, then month, then day.
pub open spec fn date_order(a: Date, b: Date) -> Order {
    if a.year < b.year {
        Order::Less
    } else if a.year > b.year {
        Order::Greater
    } else if a.month < b.month {
        Order::Less
    } else if a.month > b.month {
        Order::Greater
    } else if a.day < b.day {
        Order::Less
    } else if a.day > b.day {
        Order::Greater
    } else {
        Order::Equal
    }
}

/// A date's place in time as one number: earlier years first, then
/// earlier months of the year, then earlier days of the month (a month or
/// a day is below `2^32`, so no field spills into the next).
pub open spec fn date_rank(d: Date) -> int {
    d.year as int * 0x1_0000_0000_0000_0000 + d.month as int * 0x1_0000_0000 + d.day as int
}

/// Dates are ordered chronologically: one comes before another exactly
/// when its rank is smaller, they are equal exactly when they are the same
/// date, and the order of two dates is that of their ranks.
pub proof fn lemma_date_order_chronological(a: Date, b: Date)
    ensures
        date_order(a, b) == Order::Less <==> date_rank(a) < date_rank(b),
        date_order(a, b) == Order::Greater <==> date_rank(b) < date_rank(a),
        date_order(a, b) == Order::Equal <==> a == b,
        a.year == b.year && a.month < b.month ==> date_order(a, b) == Order::Less,
        a.year == b.year && a.month == b.month && a.day < b.day ==> date_order(a, b) == Order::Less,
        a.year < b.year ==> date_order(a, b) == Order::Less,
{
}

/// Values of the same kind are ordered; values of different kinds are not.
pub open spec fn value_order(a: ColumnValue<String>, b: ColumnValue<String>) -> Option<Order> {
    match (a, b) {
        (ColumnValue::Float(x), ColumnValue::Float(y)) => Some(number_order(x, y)),
        (ColumnValue::String(x), ColumnValue::String(y)) => Some(text_order(x@, y@)),
        (ColumnValue::Date(x), ColumnValue::Date(y)) => Some(date_order(x, y)),
        _ => None,
    }
}

/// The order of two rows by the headers `keys`, from position `i` on: the
/// first header under which both rows hold values of the same kind that are
/// not equal decides; when there is none the rows are `Equal`.
pub open spec fn row_order_from<I: IdMarker>(
    a: Row<I, String>,
    b: Row<I, String>,
    keys: Seq<String>,
    i: int,
) -> Order
    decreases keys.len() - i,
{
    if i < 0 || i >= keys.len() {
        Order::Equal
    } else {
        match (a.cell(keys[i]@), b.cell(keys[i]@)) {
            (Some(c1), Some(c2)) => match value_order(c1.value, c2.value) {
                Some(o) => if o != Order::Equal {
                    o
                } else {
                    row_order_from(a, b, keys, i + 1)
                },
                None => row_order_from(a, b, keys, i + 1),
            },
            _ => row_order_from(a, b, keys, i + 1),
        }
    }
}

/// The order of two rows by the prioritized headers `keys`.
pub open spec fn row_order<I: IdMarker>(a: Row<I, String>, b: Row<I, String>, keys: Seq<String>) -> Order {
    row_order_from(a, b, keys, 0)
}

/// Swapping the operands reverses the order of two byte sequences.
pub proof fn lemma_bytes_order_reverse(a: Seq<u8>, b: Seq<u8>)
    ensures
        bytes_order(b, a) == bytes_order(a, b).reverse(),
        bytes_order(a, a) == Order::Equal,
    decreases a.len(),
{
    if a.len() > 0 && b.len() > 0 {
        lemma_bytes_order_reverse(a.drop_first(), b.drop_first());
    }
    if a.len() > 0 {
        lemma_bytes_order_reverse(a.drop_first(), a.drop_first());
    }
}

/// The position on the real line of a number that is not NaN, up to
/// scale: its magnitude, negated when it is negative (both zeros at 0).
pub open spec fn float_key(bits: u64) -> int {
    if float_negative(bits) {
        -(float_magnitude(bits) as int)
    } else {
        float_magnitude(bits) as int
    }
}

/// Between numbers that are not NaN, `float_lt` is `<` of their positions.
proof fn lemma_float_lt_key(a: u64, b: u64)
    requires
        !float_is_nan(a),
        !float_is_nan(b),
    ensures
        float_lt(a, b) == (float_key(a) < float_key(b)),
{
}

/// Byte sequences that compare `Equal` are equal.
proof fn lemma_bytes_order_equal(a: Seq<u8>, b: Seq<u8>)
    ensures
        bytes_order(a, b) == Order::Equal ==> a == b,
    decreases a.len(),
{
    if a.len() > 0 && b.len() > 0 {
        lemma_bytes_order_equal(a.drop_first(), b.drop_first());
        if bytes_order(a, b) == Order::Equal {
            assert forall|i: int| 0 <= i < a.len() implies a[i] == b[i] by {
                if i > 0 {
                    assert(a[i] == a.drop_first()[i - 1]);
                    assert(b[i] == b.drop_first()[i - 1]);
                }
            }
            assert(a =~= b);
        }
    }
}

/// `Less` is transitive on byte sequences.
proof fn lemma_bytes_less_trans(a: Seq<u8>, b: Seq<u8>, c: Seq<u8>)
    requires
        bytes_order(a, b) == Order::Less,
        bytes_order(b, c) == Order::Less,
    ensures
        bytes_order(a, c) == Order::Less,
    decreases a.len(),
{
    if a.len() > 0 && b.len() > 0 && c.len() > 0 && a[0] == b[0] && b[0] == c[0] {
        lemma_bytes_less_trans(a.drop_first(), b.drop_first(), c.drop_first());
    }
}

/// The kind of a value: text, number or date.
pub open spec fn value_kind(v: ColumnValue<String>) -> int {
    match v {
        ColumnValue::String(_) => 0,
        ColumnValue::Float(_) => 1,
        ColumnValue::Date(_) => 2,
    }
}

/// The value is a NaN number.
pub open spec fn is_nan_value(v: ColumnValue<String>) -> bool {
    match v {
        ColumnValue::Float(b) => float_is_nan(b),
        _ => false,
    }
}

/// Among values of one kind that are not NaN, the order is total and its
/// `Equal` and `Less` chain as those of a total preorder do.
pub proof fn lemma_value_order_chain(x: ColumnValue<String>, y: ColumnValue<String>, z: ColumnValue<String>)
    requires
        value_kind(x) == value_kind(y),
        value_kind(y) == value_kind(z),
        !is_nan_value(x),
        !is_nan_value(y),
        !is_nan_value(z),
    ensures
        value_order(x, y) is Some,
        value_order(y, z) is Some,
        value_order(x, z) is Some,
        value_order(x, y) == Some(Order::Equal) && value_order(y, z) == Some(Order::Equal) ==> value_order(x, z)
            == Some(Order::Equal),
        value_order(x, y) == Some(Order::Equal) && value_order(y, z) == Some(Order::Less) ==> value_order(x, z)
            == Some(Order::Less),
        value_order(x, y) == Some(Order::Less) && value_order(y, z) == Some(Order::Equal) ==> value_order(x, z)
            == Some(Order::Less),
        value_order(x, y) == Some(Order::Less) && value_order(y, z) == Some(Order::Less) ==> value_order(x, z)
            == Some(Order::Less),
{
    match (x, y, z) {
        (ColumnValue::Float(a), ColumnValue::Float(b), ColumnValue::Float(c)) => {
            lemma_float_lt_key(a, b);
            lemma_float_lt_key(b, a);
            lemma_float_lt_key(b, c);
            lemma_float_lt_key(c, b);
            lemma_float_lt_key(a, c);
            lemma_float_lt_key(c, a);
        },
        (ColumnValue::String(a), ColumnValue::String(b), ColumnValue::String(c)) => {
            let (ea, eb, ec) = (encode_utf8(a@), encode_utf8(b@), encode_utf8(c@));
            lemma_bytes_order_equal(ea, eb);
            lemma_bytes_order_equal(eb, ec);
            if bytes_order(ea, eb) == Order::Less && bytes_order(eb, ec) == Order::Less {
                lemma_bytes_less_trans(ea, eb, ec);
            }
        },
        _ => {},
    }
}

/// Swapping the operands reverses the order of two values, and every value
/// is equal to itself.
pub proof fn lemma_value_order_reverse(a: ColumnValue<String>, b: ColumnValue<String>)
    ensures
        value_order(b, a) == match value_order(a, b) {
            Some(o) => Some(o.reverse()),
            None => None,
        },
        value_order(a, a) == Some(Order::Equal),
{
    match (a, b) {
        (ColumnValue::String(x), ColumnValue::String(y)) => {
            lemma_bytes_order_reverse(encode_utf8(x@), encode_utf8(y@));
        },
        _ => {},
    }
    match a {
        ColumnValue::String(x) => {
            lemma_bytes_order_reverse(encode_utf8(x@), encode_utf8(x@));
        },
        _ => {},
    }
}

/// Swapping the operands reverses the order of two rows, and every row is
/// equal to itself.
pub proof fn lemma_row_order_reverse<I: IdMarker>(
    a: Row<I, String>,
    b: Row<I, String>,
    keys: Seq<String>,
    i: int,
)
    ensures
        row_order_from(b, a, keys, i) == row_order_from(a, b, keys, i).reverse(),
        row_order_from(a, a, keys, i) == Order::Equal,
    decreases keys.len() - i,
{
    if 0 <= i < keys.len() {
        lemma_row_order_reverse(a, b, keys, i + 1);
        match (a.cell(keys[i]@), b.cell(keys[i]@)) {
            (Some(c1), Some(c2)) => {
                lemma_value_order_reverse(c1.value, c2.value);
            },
            _ => {},
        }
        match a.cell(keys[i]@) {
            Some(c1) => {
                lemma_value_order_reverse(c1.value, c1.value);
            },
            _ => {},
        }
    }
}

/// Compares two numbers given by their binary64 bit patterns.
pub fn compare_numbers(a: u64, b: u64) -> (res: Order)
    ensures
        res == number_order(a, b),
{
    let a_nan = (a >> 52u64) & 0x7ffu64 == 0x7ffu64 && a & 0xf_ffff_ffff_ffffu64 != 0u64;
    let b_nan = (b >> 52u64) & 0x7ffu64 == 0x7ffu64 && b & 0xf_ffff_ffff_ffffu64 != 0u64;
    let a_mag = a & 0x7fff_ffff_ffff_ffffu64;
    let b_mag = b & 0x7fff_ffff_ffff_ffffu64;
    let a_neg = a >> 63u64 == 1u64;
    let b_neg = b >> 63u64 == 1u64;
    let comparable = !a_nan && !b_nan && !(a_mag == 0 && b_mag == 0);
    let b_lt_a = comparable && ((b_neg && !a_neg) || (!b_neg && !a_neg && b_mag < a_mag) || (
    b_neg && a_neg && a_mag < b_mag));
    let a_lt_b = comparable && ((a_neg && !b_neg) || (!a_neg && !b_neg && a_mag < b_mag) || (
    a_neg && b_neg && b_mag < a_mag));
    if b_lt_a {
        Order::Greater
    } else if a_lt_b {
        Order::Less
    } else {
        Order::Equal
    }
}

/// Compares two byte sequences lexicographically.
pub fn compare_bytes(a: &[u8], b: &[u8]) -> (res: Order)
    ensures
        res == bytes_order(a@, b@),
{
    let mut i: usize = 0;
    assert(a@.skip(0) =~= a@);
    assert(b@.skip(0) =~= b@);
    while i < a.len() && i < b.len()
        invariant
            i <= a@.len(),
            i <= b@.len(),
            bytes_order(a@, b@) == bytes_order(a@.skip(i as int), b@.skip(i as int)),
        decreases a@.len() - i,
    {
        if a[i] < b[i] {
            return Order::Less;
        }
        if a[i] > b[i] {
            return Order::Greater;
        }
        assert(a@.skip(i as int).drop_first() =~= a@.skip(i + 1));
        assert(b@.skip(i as int).drop_first() =~= b@.skip(i + 1));
        i = i + 1;
    }
    if i == a.len() {
        if i == b.len() {
            Order::Equal
        } else {
            Order::Less
        }
    } else {
        Order::Greater
    }
}

/// Compares two texts by their UTF-8 encodings, as `str` does.
pub fn compare_texts(a: &String, b: &String) -> (res: Order)
    ensures
        res == text_order(a@, b@),
{
    compare_bytes(a.as_str().as_bytes(), b.as_str().as_bytes())
}

/// Compares two dates chronologically.
pub fn compare_dates(a: &Date, b: &Date) -> (res: Order)
    ensures
        res == date_order(*a, *b),
        res == Order::Less <==> date_rank(*a) < date_rank(*b),
        res == Order::Greater <==> date_rank(*b) < date_rank(*a),
        res == Order::Equal <==> *a == *b,
{
    proof {
        lemma_date_order_chronological(*a, *b);
    }
    if a.year < b.year {
        Order::Less
    } else if a.year > b.year {
        Order::Greater
    } else if a.month < b.month {
        Order::Less
    } else if a.month > b.month {
        Order::Greater
    } else if a.day < b.day {
        Order::Less
    } else if a.day > b.day {
        Order::Greater
    } else {
        Order::Equal
    }
}

impl Column<String> {
    /// Compares the values of two cells: numbers by value, texts by their
    /// UTF-8 bytes, dates chronologically; cells of different kinds are not
    /// comparable (`None`).
    pub fn compare(&self, other: &Column<String>) -> (res: Option<Order>)
        ensures
            res == value_order(self.value, other.value),
    {
        match (&self.value, &other.value) {
            (ColumnValue::Float(n1), ColumnValue::Float(n2)) => Some(compare_numbers(*n1, *n2)),
            (ColumnValue::String(s1), ColumnValue::String(s2)) => Some(compare_texts(s1, s2)),
            (ColumnValue::Date(d1), ColumnValue::Date(d2)) => Some(compare_dates(d1, d2)),
            _ => None,
        }
    }
}

/// Compares two rows by the prioritized headers `keys` (see `row_order`).
pub fn compare_rows<I: IdMarker>(a: &Row<I, String>, b: &Row<I, String>, keys: &[String]) -> (res:
    Order)
    ensures
        res == row_order(*a, *b, keys@),
{
    let mut i: usize = 0;
    while i < keys.len()
        invariant
            i <= keys@.len(),
            row_order(*a, *b, keys@) == row_order_from(*a, *b, keys@, i as int),
        decreases keys@.len() - i,
    {
        let key = &keys[i];
        let one = crate::models::find_column(&a.columns, key);
        let two = crate::models::find_column(&b.columns, key);
        proof {
            crate::models::lemma_header_index(a.columns@, key@);
            crate::models::lemma_header_index(b.columns@, key@);
        }
        match (one, two) {
            (Some(x), Some(y)) => {
                match a.columns[x].1.compare(&b.columns[y].1) {
                    Some(o) => {
                        if o != Order::Equal {
                            return o;
                        }
                    },
                    None => {},
                }
            },
            _ => {},
        }
        i = i + 1;
    }
    Order::Equal
}

/// Whether two values are equal (see `values_equal`).
pub fn same_value(a: &ColumnValue<String>, b: &ColumnValue<String>) -> (res: bool)
    ensures
        res == values_equal(*a, *b),
{
    match (a, b) {
        (ColumnValue::Float(x), ColumnValue::Float(y)) => {
            let x_nan = (*x >> 52u64) & 0x7ffu64 == 0x7ffu64 && *x & 0xf_ffff_ffff_ffffu64 != 0u64;
            let y_nan = (*y >> 52u64) & 0x7ffu64 == 0x7ffu64 && *y & 0xf_ffff_ffff_ffffu64 != 0u64;
            let zeros = *x & 0x7fff_ffff_ffff_ffffu64 == 0 && *y & 0x7fff_ffff_ffff_ffffu64 == 0;
            !x_nan && !y_nan && (*x == *y || zeros)
        },
        (ColumnValue::String(x), ColumnValue::String(y)) => *x == *y,
        (ColumnValue::Date(x), ColumnValue::Date(y)) => x.year == y.year && x.month == y.month && x.day == y.day,
        _ => false,
    }
}

} // verus!
