use vstd::prelude::*;
use crate::models::{ColumnId, Name, Row, Sheet, ToSerial};

verus! {

/// The lowercase hexadecimal digit of `n` (`0 <= n < 16`).
pub open spec fn hex_digit(n: nat) -> char {
    if n < 10 {
        (n + 48) as char
    } else {
        (n + 87) as char
    }
}

/// The last `count` hexadecimal digits of `v`, most significant first.
pub open spec fn hex_digits(v: nat, count: nat) -> Seq<char>
    decreases count,
{
    if count == 0 {
        Seq::empty()
    } else {
        hex_digits(v / 16, (count - 1) as nat).push(hex_digit(v % 16))
    }
}

/// The hyphenated text of a UUID: its 32 lowercase hexadecimal digits, most
/// significant first, in groups of 8, 4, 4, 4 and 12 joined by '-'.
pub open spec fn uuid_text(id: u128) -> Seq<char> {
    let d = hex_digits(id as nat, 32);
    d.subrange(0, 8) + seq!['-'] + d.subrange(8, 12) + seq!['-'] + d.subrange(12, 16) + seq!['-']
        + d.subrange(16, 20) + seq!['-'] + d.subrange(20, 32)
}

/// `hex_digits` gives exactly `count` hexadecimal digits.
pub proof fn lemma_hex_digits(v: nat, count: nat)
    ensures
        hex_digits(v, count).len() == count,
        forall|i: int|
            0 <= i < count ==> {
                let c = #[trigger] hex_digits(v, count)[i];
                ('0' <= c <= '9') || ('a' <= c <= 'f')
            },
    decreases count,
{
    if count > 0 {
        lemma_hex_digits(v / 16, (count - 1) as nat);
        let d = v % 16;
        assert(hex_digits(v, count).last() == hex_digit(d));
        assert forall|i: int| 0 <= i < count implies {
            let c = #[trigger] hex_digits(v, count)[i];
            ('0' <= c <= '9') || ('a' <= c <= 'f')
        } by {
            if i < count - 1 {
                assert(hex_digits(v, count)[i] == hex_digits(v / 16, (count - 1) as nat)[i]);
            }
        }
    }
}

/// The text of a UUID has 36 characters: hyphens at positions 8, 13, 18
/// and 23, and lowercase hexadecimal digits everywhere else.
pub proof fn lemma_uuid_text_shape(id: u128)
    ensures
        uuid_text(id).len() == 36,
        forall|i: int|
            0 <= i < 36 ==> {
                let c = #[trigger] uuid_text(id)[i];
                if i == 8 || i == 13 || i == 18 || i == 23 {
                    c == '-'
                } else {
                    ('0' <= c <= '9') || ('a' <= c <= 'f')
                }
            },
{
    let d = hex_digits(id as nat, 32);
    lemma_hex_digits(id as nat, 32);
    let t = uuid_text(id);
    assert(t.len() == 36);
    assert forall|i: int| 0 <= i < 36 implies {
        let c = #[trigger] uuid_text(id)[i];
        if i == 8 || i == 13 || i == 18 || i == 23 {
            c == '-'
        } else {
            ('0' <= c <= '9') || ('a' <= c <= 'f')
        }
    } by {
        if i < 8 {
            assert(t[i] == d[i]);
        } else if i == 8 {
        } else if i < 13 {
            assert(t[i] == d[i - 1]);
        } else if i == 13 {
        } else if i < 18 {
            assert(t[i] == d[i - 2]);
        } else if i == 18 {
        } else if i < 23 {
            assert(t[i] == d[i - 3]);
        } else if i == 23 {
        } else {
            assert(t[i] == d[i - 4]);
        }
    }
}

/// `16` to the power `n`.
pub open spec fn pow16(n: nat) -> nat
    decreases n,
{
    if n == 0 {
        1
    } else {
        16 * pow16((n - 1) as nat)
    }
}

/// Different digit values have different digits.
proof fn lemma_hex_digit_injective(a: nat, b: nat)
    requires
        a < 16,
        b < 16,
        hex_digit(a) == hex_digit(b),
    ensures
        a == b,
{
    assert((a + 48) as char as int == a + 48);
    assert((b + 48) as char as int == b + 48);
    assert((a + 87) as char as int == a + 87);
    assert((b + 87) as char as int == b + 87);
}

/// Below `16^n`, the last `n` digits tell numbers apart.
proof fn lemma_hex_digits_injective(v: nat, w: nat, n: nat)
    requires
        v < pow16(n),
        w < pow16(n),
        hex_digits(v, n) == hex_digits(w, n),
    ensures
        v == w,
    decreases n,
{
    if n > 0 {
        let m = (n - 1) as nat;
        assert(hex_digits(v, n).last() == hex_digit(v % 16));
        assert(hex_digits(w, n).last() == hex_digit(w % 16));
        lemma_hex_digit_injective(v % 16, w % 16);
        assert(hex_digits(v / 16, m) == hex_digits(v, n).drop_last());
        assert(hex_digits(w / 16, m) == hex_digits(w, n).drop_last());
        let p = pow16(m);
        assert(v / 16 < p) by (nonlinear_arith)
            requires
                v < 16 * p,
        ;
        assert(w / 16 < p) by (nonlinear_arith)
            requires
                w < 16 * p,
        ;
        lemma_hex_digits_injective(v / 16, w / 16, m);
        assert(v == 16 * (v / 16) + v % 16) by (nonlinear_arith);
        assert(w == 16 * (w / 16) + w % 16) by (nonlinear_arith);
    }
}

/// The text of a UUID determines it: different identifiers have different
/// texts, so reading an identifier back from its text gives the identifier.
pub proof fn lemma_uuid_text_injective(a: u128, b: u128)
    ensures
        uuid_text(a) == uuid_text(b) ==> a == b,
{
    if uuid_text(a) == uuid_text(b) {
        let da = hex_digits(a as nat, 32);
        let db = hex_digits(b as nat, 32);
        lemma_hex_digits(a as nat, 32);
        lemma_hex_digits(b as nat, 32);
        let ta = uuid_text(a);
        let tb = uuid_text(b);
        assert forall|i: int| 0 <= i < 32 implies da[i] == db[i] by {
            if i < 8 {
                assert(ta[i] == da[i] && tb[i] == db[i]);
            } else if i < 12 {
                assert(ta[i + 1] == da[i] && tb[i + 1] == db[i]);
            } else if i < 16 {
                assert(ta[i + 2] == da[i] && tb[i + 2] == db[i]);
            } else if i < 20 {
                assert(ta[i + 3] == da[i] && tb[i + 3] == db[i]);
            } else {
                assert(ta[i + 4] == da[i] && tb[i + 4] == db[i]);
            }
        }
        assert(da =~= db);
        assert(pow16(32) == 0x1_0000_0000_0000_0000_0000_0000_0000_0000nat) by {
            reveal_with_fuel(pow16, 33);
        }
        lemma_hex_digits_injective(a as nat, b as nat, 32);
    }
}

/// What `uuid::Uuid::parse_str` reads from a text: the UUID's 128-bit
/// (big-endian) value, if the text is one of the forms it accepts.
pub uninterp spec fn uuid_parse(text: Seq<char>) -> Option<u128>;

/// `uuid::Uuid::parse_str` followed by `Uuid::as_u128`. The result is named
/// by `uuid_parse`, a function of the text alone. The crate reads a 36-byte
/// text with hyphens at 8, 13, 18 and 23 and hexadecimal digits elsewhere
/// as the UUID whose bytes those digits write, so the hyphenated lowercase
/// text of an identifier reads back as that identifier; that is the one
/// further fact the contract claims. Which other texts it accepts (upper
/// case, no hyphens, braces, a `urn:uuid:` prefix) is left unsaid.
#[verifier::external_body]
fn parse_uuid(text: &str) -> (res: Option<u128>)
    ensures
        res == uuid_parse(text@),
        forall|id: u128| #[trigger] uuid_text(id) == text@ ==> res == Some(id),
{
    match uuid::Uuid::parse_str(text) {
        Ok(u) => Some(u.as_u128()),
        Err(_) => None,
    }
}

/// Reads an identifier from its text, as `uuid` parses it: the text that
/// `to_serial` writes for an identifier gives that identifier back.
pub fn id_from_text(text: &String) -> (res: Option<u128>)
    ensures
        res == uuid_parse(text@),
        forall|id: u128| #[trigger] uuid_text(id) == text@ ==> res == Some(id),
{
    parse_uuid(text.as_str())
}

/// The text forms that `to_serial` gives a cell identifier's ids determine
/// them: cell identifiers whose texts agree have the same sheet and row, so
/// `id_from_text` reads each text back as its id.
pub proof fn lemma_column_id_texts_determine_ids(a: ColumnId<u128, String>, b: ColumnId<u128, String>)
    ensures
        uuid_text(a.sheet_id) == uuid_text(b.sheet_id) ==> a.sheet_id == b.sheet_id,
        uuid_text(a.row_id) == uuid_text(b.row_id) ==> a.row_id == b.row_id,
{
    lemma_uuid_text_injective(a.sheet_id, b.sheet_id);
    lemma_uuid_text_injective(a.row_id, b.row_id);
}

/// `uuid::Uuid::to_string` on the UUID whose 128-bit (big-endian) value is
/// `id`: the crate formats a UUID as its hyphenated lowercase hexadecimal
/// text, which is what the contract claims.
#[verifier::external_body]
fn uuid_to_string(id: u128) -> (res: String)
    ensures
        res@ == uuid_text(id),
{
    uuid::Uuid::from_u128(id).to_string()
}

/// `uuid::Uuid::new_v4`, as a 128-bit value: a random UUID. The crate masks
/// random bits so that the version field is 4 and the variant bits are `10`,
/// which is all the contract claims. The crate panics when the system cannot
/// provide random bytes; the contract does not say that.
#[verifier::external_body]
fn uuid_v4() -> (res: u128)
    ensures
        (res >> 76u128) & 0xfu128 == 4u128,
        (res >> 62u128) & 0x3u128 == 2u128,
{
    uuid::Uuid::new_v4().as_u128()
}

/// A fresh identifier for a row, a sheet or a sheet type: a random
/// version-4 UUID (version field 4, variant bits `10`).
pub fn new_id() -> (res: u128)
    ensures
        (res >> 76u128) & 0xfu128 == 4u128,
        (res >> 62u128) & 0x3u128 == 2u128,
{
    uuid_v4()
}

impl ToSerial<String> for u128 {
    /// The hyphenated text of the UUID.
    fn to_serial(self) -> (res: String)
        ensures
            res@ == uuid_text(self),
    {
        uuid_to_string(self)
    }
}

impl ToSerial<ColumnId<String, String>> for ColumnId<u128, String> {
    fn to_serial(self) -> (res: ColumnId<String, String>)
        ensures
            res.sheet_id@ == uuid_text(self.sheet_id),
            res.row_id@ == uuid_text(self.row_id),
            res.header == self.header,
    {
        let ColumnId { sheet_id, row_id, header } = self;
        let sheet_id = sheet_id.to_serial();
        let row_id = row_id.to_serial();
        ColumnId { sheet_id, row_id, header }
    }
}

impl ToSerial<Name<String>> for Name<u128> {
    fn to_serial(self) -> (res: Name<String>)
        ensures
            res.id@ == uuid_text(self.id),
            res.the_name == self.the_name,
    {
        let Name { id, the_name } = self;
        let id = id.to_serial();
        Name { id, the_name }
    }
}

impl ToSerial<Row<String, String>> for Row<u128, String> {
    fn to_serial(self) -> (res: Row<String, String>)
        ensures
            res.id@ == uuid_text(self.id),
            res.columns == self.columns,
    {
        let Row { id, columns } = self;
        let id = id.to_serial();
        Row { id, columns }
    }
}

impl ToSerial<Sheet<String, String>> for Sheet<u128, String> {
    fn to_serial(self) -> (res: Sheet<String, String>)
        ensures
            res.id@ == uuid_text(self.id),
            res.sheet_name == self.sheet_name,
            res.sheet_type_name == self.sheet_type_name,
            res.insert_date == self.insert_date,
            res.rows@.len() == self.rows@.len(),
            forall|i: int|
                0 <= i < res.rows@.len() ==> (#[trigger] res.rows@[i]).id@ == uuid_text(
                    self.rows@[i].id,
                ) && res.rows@[i].columns == self.rows@[i].columns,
    {
        let Sheet { id, sheet_name, sheet_type_name, insert_date, rows } = self;
        let id = id.to_serial();
        let ghost old_rows = rows@;
        let mut rows = rows;
        let mut serial: Vec<Row<String, String>> = Vec::new();
        let mut i: usize = 0;
        let n = rows.len();
        assert(old_rows.skip(0) =~= old_rows);
        while i < n
            invariant
                n == old_rows.len(),
                i <= n,
                rows@ =~= old_rows.skip(i as int),
                serial@.len() == i,
                forall|k: int|
                    0 <= k < i ==> (#[trigger] serial@[k]).id@ == uuid_text(old_rows[k].id)
                        && serial@[k].columns == old_rows[k].columns,
            decreases n - i,
        {
            let row = rows.remove(0);
            assert(old_rows.skip(i as int).remove(0) =~= old_rows.skip(i + 1));
            serial.push(row.to_serial());
            i = i + 1;
        }
        Sheet { id, sheet_name, sheet_type_name, insert_date, rows: serial }
    }
}

} // verus!
