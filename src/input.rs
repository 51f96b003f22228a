//! Reading transaction records from CSV text: a header row names the columns
//! `type`, `client`, `tx` and `amount`, in any order; each later row is one
//! record, and a row that does not read as a record is dropped.
use crate::model::{str_equals, txn_type_of_name, RawTxnInput, TxnType, AMOUNT_SCALE};
use vstd::prelude::*;

verus! {

/// The largest whole part of an amount: it keeps every amount within an `i64`.
pub const MAX_WHOLE: u64 = 900_000_000_000_000;

pub open spec fn is_digit(c: char) -> bool {
    '0' <= c && c <= '9'
}

pub open spec fn all_digits(s: Seq<char>) -> bool {
    forall|i: int| 0 <= i < s.len() ==> is_digit(#[trigger] s[i])
}

/// The number that a string of decimal digits writes.
pub open spec fn digits_value(s: Seq<char>) -> int
    decreases s.len(),
{
    if s.len() == 0 {
        0
    } else {
        digits_value(s.drop_last()) * 10 + (s.last() as int - '0' as int)
    }
}

/// The number that a string of digits writes, if it is one and at most `max`.
pub open spec fn bounded_digits(s: Seq<char>, max: int) -> Option<int> {
    if all_digits(s) && digits_value(s) <= max {
        Some(digits_value(s))
    } else {
        None
    }
}

/// An unsigned integer: an optional `+`, then one or more digits.
pub open spec fn unsigned_value(s: Seq<char>, max: int) -> Option<int> {
    let d = if s.len() > 0 && s[0] == '+' {
        s.drop_first()
    } else {
        s
    };
    if d.len() == 0 {
        None
    } else {
        bounded_digits(d, max)
    }
}

/// `k` splits `s` into whole digits, a point, and fraction digits.
pub open spec fn point_at(s: Seq<char>, k: int) -> bool {
    &&& 0 <= k < s.len()
    &&& s[k] == '.'
    &&& all_digits(s.take(k))
    &&& all_digits(s.skip(k + 1))
}

/// The whole part and the fraction part of an unsigned decimal.
pub open spec fn decimal_parts(s: Seq<char>) -> Option<(Seq<char>, Seq<char>)> {
    if all_digits(s) {
        Some((s, Seq::empty()))
    } else if exists|k: int| point_at(s, k) {
        let k = choose|k: int| point_at(s, k);
        Some((s.take(k), s.skip(k + 1)))
    } else {
        None
    }
}

/// Ten to the power `n`.
pub open spec fn pow10(n: nat) -> int
    decreases n,
{
    if n == 0 {
        1
    } else {
        10 * pow10((n - 1) as nat)
    }
}

/// The fixed-point units of an unsigned decimal: whole digits, and
/// optionally a point and at most four fraction digits, with at least one
/// digit in all and a whole part of at most `MAX_WHOLE`.
pub open spec fn decimal_units(s: Seq<char>) -> Option<int> {
    match decimal_parts(s) {
        Some((whole, frac)) => if whole.len() + frac.len() > 0 && frac.len() <= 4 && digits_value(
            whole,
        ) <= MAX_WHOLE {
            Some(
                digits_value(whole) * AMOUNT_SCALE + digits_value(frac) * pow10(
                    (4 - frac.len()) as nat,
                ),
            )
        } else {
            None
        },
        None => None,
    }
}

/// An amount in fixed-point units: an optional sign, then an unsigned
/// decimal (see `decimal_units`).
pub open spec fn amount_value(s: Seq<char>) -> Option<int> {
    let signed = s.len() > 0 && (s[0] == '-' || s[0] == '+');
    let body = if signed {
        s.drop_first()
    } else {
        s
    };
    match decimal_units(body) {
        Some(v) => Some(
            if signed && s[0] == '-' {
                -v
            } else {
                v
            },
        ),
        None => None,
    }
}

proof fn lemma_digits_prefix(s: Seq<char>, k: int)
    requires
        all_digits(s),
        0 <= k <= s.len(),
    ensures
        0 <= digits_value(s.take(k)) <= digits_value(s),
    decreases s.len(),
{
    if s.len() > 0 {
        assert(all_digits(s.drop_last()));
        lemma_digits_prefix(s.drop_last(), 0);
        if k < s.len() {
            lemma_digits_prefix(s.drop_last(), k);
            assert(s.drop_last().take(k) == s.take(k));
        } else {
            assert(s.take(k) == s);
        }
    } else {
        assert(s.take(k) == s);
    }
}

/// The number that the characters `from..to` of `s` write, if they are all
/// digits and it is at most `max`.
pub fn parse_digits(s: &str, from: usize, to: usize, max: u64) -> (r: Option<u64>)
    requires
        from <= to <= s@.len(),
        max <= u64::MAX / 10 - 9,
    ensures
        r is None <==> bounded_digits(s@.subrange(from as int, to as int), max as int) is None,
        r matches Some(v) ==> bounded_digits(s@.subrange(from as int, to as int), max as int)
            == Some(v as int),
{
    let ghost d = s@.subrange(from as int, to as int);
    let mut acc: u64 = 0;
    let mut i = from;
    while i < to
        invariant
            from <= i <= to <= s@.len(),
            d == s@.subrange(from as int, to as int),
            max <= u64::MAX / 10 - 9,
            all_digits(d.take(i - from)),
            acc == digits_value(d.take(i - from)),
            acc <= max,
        decreases to - i,
    {
        let c = s.get_char(i);
        let ghost k = i - from;
        assert(d[k] == c);
        if c < '0' || c > '9' {
            assert(!all_digits(d));
            return None;
        }
        let next = acc * 10 + (c as u64 - '0' as u64);
        assert(d.take(k + 1).drop_last() == d.take(k));
        assert(d.take(k + 1).last() == c);
        assert(all_digits(d.take(k + 1))) by {
            assert forall|j: int| 0 <= j < k + 1 implies is_digit(#[trigger] d.take(k + 1)[j]) by {
                if j < k {
                    assert(d.take(k + 1)[j] == d.take(k)[j]);
                }
            }
        }
        if next > max {
            proof {
                if all_digits(d) {
                    lemma_digits_prefix(d, k + 1);
                }
            }
            return None;
        }
        acc = next;
        i = i + 1;
    }
    assert(d.take(to - from) == d);
    Some(acc)
}

/// An unsigned integer of at most `max`, see `unsigned_value`.
pub fn parse_unsigned(s: &str, max: u64) -> (r: Option<u64>)
    requires
        max <= u64::MAX / 10 - 9,
    ensures
        r is None <==> unsigned_value(s@, max as int) is None,
        r matches Some(v) ==> unsigned_value(s@, max as int) == Some(v as int),
{
    let n = s.unicode_len();
    let start: usize = if n > 0 && s.get_char(0) == '+' {
        1
    } else {
        0
    };
    assert(s@.subrange(start as int, n as int) == (if s@.len() > 0 && s@[0] == '+' {
        s@.drop_first()
    } else {
        s@
    }));
    if start == n {
        return None;
    }
    parse_digits(s, start, n, max)
}

/// The fixed-point units of a fraction of at most four digits worth `v`.
fn fraction_units(v: u64, len: usize) -> (r: u64)
    requires
        len <= 4,
        v < pow10(len as nat),
    ensures
        r == v * pow10((4 - len) as nat),
        r < 10000,
{
    reveal_with_fuel(pow10, 5);
    if len == 0 {
        v * 10000
    } else if len == 1 {
        v * 1000
    } else if len == 2 {
        v * 100
    } else if len == 3 {
        v * 10
    } else {
        v
    }
}

proof fn lemma_digits_below_pow10(s: Seq<char>)
    requires
        all_digits(s),
    ensures
        0 <= digits_value(s) < pow10(s.len()),
    decreases s.len(),
{
    if s.len() > 0 {
        assert(all_digits(s.drop_last()));
        lemma_digits_below_pow10(s.drop_last());
        assert(is_digit(s[s.len() - 1]));
    }
}

fn is_digit_char(c: char) -> (r: bool)
    ensures
        r == is_digit(c),
{
    '0' <= c && c <= '9'
}

/// Where the leading digits of `b` end, at `k`, tells its decimal parts.
proof fn lemma_decimal_parts_at(b: Seq<char>, k: int)
    requires
        0 <= k <= b.len(),
        all_digits(b.take(k)),
        k < b.len() ==> !is_digit(b[k]),
    ensures
        decimal_parts(b) == (if k == b.len() {
            Some((b, Seq::<char>::empty()))
        } else if b[k] == '.' && all_digits(b.skip(k + 1)) {
            Some((b.take(k), b.skip(k + 1)))
        } else {
            None
        }),
{
    if k == b.len() {
        assert(b.take(k) == b);
    } else {
        assert(!all_digits(b));
        if exists|j: int| point_at(b, j) {
            let j = choose|j: int| point_at(b, j);
            if j < k {
                assert(b.take(k)[j] == b[j]);
            } else if j > k {
                assert(b.take(j)[k] == b[k]);
            }
        }
        if b[k] == '.' && all_digits(b.skip(k + 1)) {
            assert(point_at(b, k));
        }
    }
}

/// The fixed-point units of the unsigned decimal in characters `from..to`
/// of `s`, see `decimal_units`.
fn parse_decimal(s: &str, from: usize, to: usize) -> (r: Option<u64>)
    requires
        from <= to <= s@.len(),
    ensures
        r is None <==> decimal_units(s@.subrange(from as int, to as int)) is None,
        r matches Some(v) ==> decimal_units(s@.subrange(from as int, to as int)) == Some(v as int),
        r matches Some(v) ==> v <= i64::MAX,
{
    let ghost b = s@.subrange(from as int, to as int);
    let mut i = from;
    while i < to && is_digit_char(s.get_char(i))
        invariant
            from <= i <= to <= s@.len(),
            b == s@.subrange(from as int, to as int),
            all_digits(b.take(i - from)),
        decreases to - i,
    {
        assert(all_digits(b.take(i + 1 - from))) by {
            assert forall|j: int| 0 <= j < i + 1 - from implies is_digit(
                #[trigger] b.take(i + 1 - from)[j],
            ) by {
                if j < i - from {
                    assert(b.take(i + 1 - from)[j] == b.take(i - from)[j]);
                } else {
                    assert(b[j] == s@[i as int]);
                }
            }
        }
        i = i + 1;
    }
    let ghost k = i - from;
    assert(i < to ==> b[k] == s@[i as int]);
    proof {
        lemma_decimal_parts_at(b, k);
    }
    assert(b.take(k) == s@.subrange(from as int, i as int));
    let whole = match parse_digits(s, from, i, MAX_WHOLE) {
        Some(w) => w,
        None => {
            return None;
        },
    };
    if i == to {
        if i == from {
            return None;
        }
        assert(b.take(k) == b);
        assert(digits_value(Seq::<char>::empty()) == 0);
        assert(0 * pow10(4) == 0);
        return Some(whole * 10000);
    }
    if s.get_char(i) != '.' {
        return None;
    }
    assert(b.skip(k + 1) == s@.subrange(i + 1, to as int));
    if to - (i + 1) > 4 {
        return None;
    }
    let frac = match parse_digits(s, i + 1, to, MAX_WHOLE) {
        Some(f) => f,
        None => {
            proof {
                if all_digits(b.skip(k + 1)) {
                    lemma_digits_below_pow10(b.skip(k + 1));
                    reveal_with_fuel(pow10, 5);
                }
            }
            return None;
        },
    };
    if i == from && to == i + 1 {
        return None;
    }
    proof {
        lemma_digits_below_pow10(b.skip(k + 1));
    }
    let units = fraction_units(frac, to - (i + 1));
    Some(whole * 10000 + units)
}

/// An amount in fixed-point units, see `amount_value`.
pub fn parse_amount(s: &str) -> (r: Option<i64>)
    ensures
        r is None <==> amount_value(s@) is None,
        r matches Some(v) ==> amount_value(s@) == Some(v as int),
{
    let n = s.unicode_len();
    let first = if n > 0 {
        s.get_char(0)
    } else {
        ' '
    };
    let signed = n > 0 && (first == '-' || first == '+');
    let start: usize = if signed {
        1
    } else {
        0
    };
    assert(s@.subrange(start as int, n as int) == (if signed {
        s@.drop_first()
    } else {
        s@
    }));
    match parse_decimal(s, start, n) {
        Some(v) => {
            if signed && first == '-' {
                Some(-(v as i64))
            } else {
                Some(v as i64)
            }
        },
        None => None,
    }
}

/// The positions of the four columns in a row.
#[derive(Clone, Copy, Debug, PartialEq, Eq, Structural)]
pub struct Columns {
    pub kind: usize,
    pub client: usize,
    pub tx: usize,
    pub amount: usize,
}

/// The texts of a row's fields.
pub open spec fn fields_view(row: Seq<String>) -> Seq<Seq<char>> {
    row.map_values(|f: String| f@)
}

/// The rows as read, each field as its text; `None` for a refused row.
pub open spec fn rows_view(rows: Seq<Option<Vec<String>>>) -> Seq<Option<Seq<Seq<char>>>> {
    rows.map_values(
        |row: Option<Vec<String>>|
            match row {
                Some(fields) => Some(fields_view(fields@)),
                None => None,
            },
    )
}

/// `i` is the first position of `name` in `header`.
pub open spec fn first_at(header: Seq<Seq<char>>, name: Seq<char>, i: int) -> bool {
    &&& 0 <= i < header.len()
    &&& header[i] == name
    &&& forall|j: int| 0 <= j < i ==> header[j] != name
}

/// The first position of `name` in `header`, if it is there.
pub open spec fn column_of(header: Seq<Seq<char>>, name: Seq<char>) -> Option<int> {
    if exists|i: int| first_at(header, name, i) {
        Some(choose|i: int| first_at(header, name, i))
    } else {
        None
    }
}

/// The columns that a header row names, if it names all four.
pub open spec fn columns_of(header: Seq<Seq<char>>) -> Option<Columns> {
    match (
        column_of(header, "type"@),
        column_of(header, "client"@),
        column_of(header, "tx"@),
        column_of(header, "amount"@),
    ) {
        (Some(k), Some(c), Some(t), Some(a)) => Some(
            Columns { kind: k as usize, client: c as usize, tx: t as usize, amount: a as usize },
        ),
        _ => None,
    }
}

/// An amount field: empty for no amount, else an amount; `None` where it is
/// neither.
pub open spec fn amount_field(f: Seq<char>) -> Option<Option<i64>> {
    if f.len() == 0 {
        Some(None)
    } else {
        match amount_value(f) {
            Some(v) => Some(Some(v as i64)),
            None => None,
        }
    }
}

/// The record that a row's fields write, if they write one: a known kind, a
/// client id that fits 16 bits, a transaction id that fits 32 bits, and an
/// amount field as `amount_field` reads it.
pub open spec fn record_of(cols: Columns, fields: Seq<Seq<char>>) -> Option<RawTxnInput> {
    if cols.kind < fields.len() && cols.client < fields.len() && cols.tx < fields.len()
        && cols.amount < fields.len() {
        match (
            txn_type_of_name(fields[cols.kind as int]),
            unsigned_value(fields[cols.client as int], u16::MAX as int),
            unsigned_value(fields[cols.tx as int], u32::MAX as int),
            amount_field(fields[cols.amount as int]),
        ) {
            (Some(kind), Some(client), Some(tx), Some(amount)) => Some(
                RawTxnInput {
                    txn_type: kind,
                    client_id: client as u16,
                    txn_id: tx as u32,
                    amount,
                },
            ),
            _ => None,
        }
    } else {
        None
    }
}

/// The records of `rows` in order, skipping refused rows and rows that write
/// no record.
pub open spec fn records_of(cols: Columns, rows: Seq<Option<Seq<Seq<char>>>>) -> Seq<RawTxnInput>
    decreases rows.len(),
{
    if rows.len() == 0 {
        Seq::empty()
    } else {
        let prev = records_of(cols, rows.drop_last());
        match rows.last() {
            Some(fields) => match record_of(cols, fields) {
                Some(r) => prev.push(r),
                None => prev,
            },
            None => prev,
        }
    }
}

/// The records of a table: its first row is the header, which must name the
/// four columns; the records are read from the rows after it.
pub open spec fn inputs_of(rows: Seq<Option<Seq<Seq<char>>>>) -> Seq<RawTxnInput> {
    if rows.len() == 0 {
        Seq::empty()
    } else {
        match rows[0] {
            Some(header) => match columns_of(header) {
                Some(cols) => records_of(cols, rows.skip(1)),
                None => Seq::empty(),
            },
            None => Seq::empty(),
        }
    }
}

/// The rows that the CSV reader finds in a text.
pub uninterp spec fn csv_rows(text: Seq<char>) -> Seq<Option<Seq<Seq<char>>>>;

/// Relies on csv::ReaderBuilder, with headers off and `Trim::All`, and on
/// csv::Reader::records: the rows of `text` in order, each field with its
/// surrounding whitespace trimmed; `None` for a row that the reader refuses,
/// such as one whose number of fields differs from the first row's.
#[verifier::external_body]
fn read_rows(text: &str) -> (r: Vec<Option<Vec<String>>>)
    ensures
        rows_view(r@) == csv_rows(text@),
{
    let mut reader = csv::ReaderBuilder::new().has_headers(false).trim(csv::Trim::All).from_reader(
        text.as_bytes(),
    );
    reader.records().map(|row| row.ok().map(|fields| fields.iter().map(|f| f.to_string()).collect())).collect()
}

/// The first position of `name` in `header`.
fn find_column(header: &Vec<String>, name: &str) -> (r: Option<usize>)
    ensures
        r is None <==> column_of(fields_view(header@), name@) is None,
        r matches Some(i) ==> column_of(fields_view(header@), name@) == Some(i as int),
{
    let ghost h = fields_view(header@);
    let mut i: usize = 0;
    while i < header.len()
        invariant
            i <= header@.len(),
            h == fields_view(header@),
            forall|j: int| 0 <= j < i ==> h[j] != name@,
        decreases header@.len() - i,
    {
        if str_equals(header[i].as_str(), name) {
            assert(first_at(h, name@, i as int));
            return Some(i);
        }
        i = i + 1;
    }
    None
}

/// The columns that a header row names, see `columns_of`.
pub fn columns_from_header(header: &Vec<String>) -> (r: Option<Columns>)
    ensures
        r == columns_of(fields_view(header@)),
{
    let kind = find_column(header, "type");
    let client = find_column(header, "client");
    let tx = find_column(header, "tx");
    let amount = find_column(header, "amount");
    match (kind, client, tx, amount) {
        (Some(k), Some(c), Some(t), Some(a)) => Some(
            Columns { kind: k, client: c, tx: t, amount: a },
        ),
        _ => None,
    }
}

/// The record that a row writes, see `record_of`.
pub fn parse_record(cols: &Columns, fields: &Vec<String>) -> (r: Option<RawTxnInput>)
    ensures
        r == record_of(*cols, fields_view(fields@)),
{
    let n = fields.len();
    if cols.kind >= n || cols.client >= n || cols.tx >= n || cols.amount >= n {
        return None;
    }
    let kind = match TxnType::parse(fields[cols.kind].as_str()) {
        Ok(k) => k,
        Err(_) => {
            return None;
        },
    };
    let client = match parse_unsigned(fields[cols.client].as_str(), 0xffff) {
        Some(c) => c as u16,
        None => {
            return None;
        },
    };
    let tx = match parse_unsigned(fields[cols.tx].as_str(), 0xffff_ffff) {
        Some(t) => t as u32,
        None => {
            return None;
        },
    };
    let amount_text = fields[cols.amount].as_str();
    let amount = if amount_text.unicode_len() == 0 {
        None
    } else {
        match parse_amount(amount_text) {
            Some(a) => Some(a),
            None => {
                return None;
            },
        }
    };
    Some(RawTxnInput { txn_type: kind, client_id: client, txn_id: tx, amount })
}

/// The records of a table of rows, see `inputs_of`.
pub fn parse_rows(rows: &Vec<Option<Vec<String>>>) -> (r: Vec<RawTxnInput>)
    ensures
        r@ == inputs_of(rows_view(rows@)),
{
    let ghost v = rows_view(rows@);
    let mut out: Vec<RawTxnInput> = Vec::new();
    if rows.len() == 0 {
        return out;
    }
    let cols = match &rows[0] {
        Some(header) => match columns_from_header(header) {
            Some(c) => c,
            None => {
                return out;
            },
        },
        None => {
            return out;
        },
    };
    let mut i: usize = 1;
    while i < rows.len()
        invariant
            1 <= i <= rows@.len(),
            v == rows_view(rows@),
            out@ == records_of(cols, v.subrange(1, i as int)),
        decreases rows@.len() - i,
    {
        assert(v.subrange(1, i + 1).drop_last() == v.subrange(1, i as int));
        match &rows[i] {
            Some(fields) => {
                match parse_record(&cols, fields) {
                    Some(rec) => out.push(rec),
                    None => {},
                }
            },
            None => {},
        }
        i = i + 1;
    }
    assert(v.subrange(1, i as int) == v.skip(1));
    out
}

/// The records of a CSV text: its rows as the CSV reader finds them, read by
/// `parse_rows`.
pub fn parse_csv(text: &str) -> (r: Vec<RawTxnInput>)
    ensures
        r@ == inputs_of(csv_rows(text@)),
{
    let rows = read_rows(text);
    parse_rows(&rows)
}

} // verus!
