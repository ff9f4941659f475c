//! JSON text of converted records. A record type with named fields becomes
//! an object whose keys follow declaration order; a bare value type becomes
//! its value alone. A batch becomes an array of those, in row order.
use vstd::prelude::*;

use crate::consumer::{
    batch_clean, converted, converted_all, records_model, rows_model, ConsumerModel, Record,
    RowConsumer,
};
use crate::value::{FieldModel, FieldValue, Row, Scalar, ScalarModel};
use vstd::arithmetic::power::pow;
use vstd::string::StringExecFns;

verus! {

/// The lowercase hexadecimal digit of `n < 16`.
pub open spec fn hex_digit(n: int) -> char {
    if n < 10 {
        digit(n as nat)
    } else if n == 10 {
        'a'
    } else if n == 11 {
        'b'
    } else if n == 12 {
        'c'
    } else if n == 13 {
        'd'
    } else if n == 14 {
        'e'
    } else {
        'f'
    }
}

/// How a character stands inside a JSON string: quote and backslash, and
/// the control characters below U+0020, are escaped, with the short form
/// where JSON has one and `\u00XX` otherwise; any other character stands
/// for itself.
pub open spec fn escape_char(ch: char) -> Seq<char> {
    if ch == '"' {
        seq!['\\', '"']
    } else if ch == '\\' {
        seq!['\\', '\\']
    } else if ch == '\x08' {
        seq!['\\', 'b']
    } else if ch == '\x0c' {
        seq!['\\', 'f']
    } else if ch == '\n' {
        seq!['\\', 'n']
    } else if ch == '\r' {
        seq!['\\', 'r']
    } else if ch == '\t' {
        seq!['\\', 't']
    } else if (ch as int) < 0x20 {
        seq!['\\', 'u', '0', '0', hex_digit((ch as int) / 16), hex_digit((ch as int) % 16)]
    } else {
        seq![ch]
    }
}

/// The escaped form of a text, character by character.
pub open spec fn escaped(s: Seq<char>) -> Seq<char>
    decreases s.len(),
{
    if s.len() == 0 {
        Seq::empty()
    } else {
        escape_char(s[0]) + escaped(s.drop_first())
    }
}

/// A text as a JSON string literal.
pub open spec fn json_string(s: Seq<char>) -> Seq<char> {
    seq!['"'] + escaped(s) + seq!['"']
}

/// The decimal digit of `n < 10`.
pub open spec fn digit(n: nat) -> char {
    if n == 0 {
        '0'
    } else if n == 1 {
        '1'
    } else if n == 2 {
        '2'
    } else if n == 3 {
        '3'
    } else if n == 4 {
        '4'
    } else if n == 5 {
        '5'
    } else if n == 6 {
        '6'
    } else if n == 7 {
        '7'
    } else if n == 8 {
        '8'
    } else {
        '9'
    }
}

/// The decimal digits of a natural number, without leading zeros.
pub open spec fn digits(n: nat) -> Seq<char>
    decreases n,
{
    if n < 10 {
        seq![digit(n)]
    } else {
        digits(n / 10).push(digit(n % 10))
    }
}

/// An integer in decimal, with a leading `-` where it is negative.
pub open spec fn decimal(n: int) -> Seq<char> {
    if n < 0 {
        seq!['-'] + digits((-n) as nat)
    } else {
        digits(n as nat)
    }
}

/// Hexadecimal digit `k` of a 128-bit value, counted from the most
/// significant.
pub open spec fn nibble(v: u128, k: int) -> int {
    (v as int / pow(16, (31 - k) as nat)) % 16
}

/// Hexadecimal digits `from` up to `to` of a 128-bit value.
pub open spec fn hex_run(v: u128, from: int, to: int) -> Seq<char> {
    Seq::new((to - from) as nat, |j: int| hex_digit(nibble(v, from + j)))
}

/// A UUID in its hyphenated lowercase form, groups of 8, 4, 4, 4 and 12
/// digits.
pub open spec fn hyphenated(v: u128) -> Seq<char> {
    hex_run(v, 0, 8) + seq!['-'] + hex_run(v, 8, 12) + seq!['-'] + hex_run(v, 12, 16) + seq!['-']
        + hex_run(v, 16, 20) + seq!['-'] + hex_run(v, 20, 32)
}

/// Each part preceded by a comma.
pub open spec fn comma_each(parts: Seq<Seq<char>>) -> Seq<char>
    decreases parts.len(),
{
    if parts.len() == 0 {
        Seq::empty()
    } else {
        ","@ + parts[0] + comma_each(parts.drop_first())
    }
}

/// Parts separated by commas.
pub open spec fn join(parts: Seq<Seq<char>>) -> Seq<char> {
    if parts.len() == 0 {
        Seq::empty()
    } else {
        parts[0] + comma_each(parts.drop_first())
    }
}

/// Parts as a JSON array.
pub open spec fn json_array(parts: Seq<Seq<char>>) -> Seq<char> {
    "["@ + join(parts) + "]"@
}

/// A scalar as JSON: a boolean, a number, a string, a UUID as its
/// hyphenated string, bytes as an array of numbers.
pub open spec fn json_scalar(s: ScalarModel) -> Seq<char> {
    match s {
        ScalarModel::Bool(b) => if b {
            "true"@
        } else {
            "false"@
        },
        ScalarModel::Char(v) => decimal(v as int),
        ScalarModel::SmallInt(v) => decimal(v as int),
        ScalarModel::Int(v) => decimal(v as int),
        ScalarModel::Oid(v) => decimal(v as int),
        ScalarModel::BigInt(v) => decimal(v as int),
        ScalarModel::Text(t) => json_string(t),
        ScalarModel::Bytea(b) => json_array(b.map_values(|x: u8| decimal(x as int))),
        ScalarModel::Uuid(v) => "\""@ + hyphenated(v) + "\""@,
    }
}

/// A field value as JSON: `null` for an absent nullable value, an array for
/// a list.
pub open spec fn json_field(f: FieldModel) -> Seq<char> {
    match f {
        FieldModel::Plain(s) => json_scalar(s),
        FieldModel::Nullable(None) => "null"@,
        FieldModel::Nullable(Some(s)) => json_scalar(s),
        FieldModel::List(items) => json_array(items.map_values(|s: ScalarModel| json_scalar(s))),
    }
}

/// One member of a JSON object: the field's name, a colon, its value.
pub open spec fn json_member(name: Seq<char>, value: FieldModel) -> Seq<char> {
    json_string(name) + ":"@ + json_field(value)
}

/// A record as JSON: an object with one member per field, in declaration
/// order, for a record type with named fields; the value alone for a bare
/// value type.
pub open spec fn json_record(c: ConsumerModel, rec: Seq<FieldModel>) -> Seq<char> {
    if c.named {
        "{"@ + join(Seq::new(c.len(), |i: int| json_member(c.field_names[i], rec[i])))
            + "}"@
    } else {
        json_field(rec[0])
    }
}

/// A batch of records as a JSON array, in order.
pub open spec fn json_batch(c: ConsumerModel, recs: Seq<Seq<FieldModel>>) -> Seq<char> {
    json_array(recs.map_values(|r: Seq<FieldModel>| json_record(c, r)))
}

/// Relies on serde_json::to_string for a `str`: the text as a JSON string
/// literal, escaped as its escape table gives. Serializing a `str` into
/// memory cannot fail.
#[verifier::external_body]
fn quote(s: &str) -> (r: String)
    ensures
        r@ == json_string(s@),
{
    serde_json::to_string(s).unwrap_or_default()
}

/// Relies on serde_json::to_string for an `i64`: the number in decimal.
/// Serializing an integer into memory cannot fail.
#[verifier::external_body]
fn integer_text(v: i64) -> (r: String)
    ensures
        r@ == decimal(v as int),
{
    serde_json::to_string(&v).unwrap_or_default()
}

/// Relies on uuid::Uuid::from_u128, which takes the value's bytes in
/// big-endian order, and on the `Display` of its hyphenated form.
#[verifier::external_body]
fn uuid_text(v: u128) -> (r: String)
    ensures
        r@ == hyphenated(v),
{
    uuid::Uuid::from_u128(v).hyphenated().to_string()
}

proof fn lemma_comma_each_push(parts: Seq<Seq<char>>, x: Seq<char>)
    ensures
        comma_each(parts.push(x)) == comma_each(parts) + ","@ + x,
    decreases parts.len(),
{
    if parts.len() == 0 {
        assert(parts.push(x).drop_first() =~= Seq::<Seq<char>>::empty());
        assert(comma_each(Seq::<Seq<char>>::empty()) == Seq::<char>::empty());
        assert(parts.push(x)[0] == x);
        assert(comma_each(parts) == Seq::<char>::empty());
        assert(comma_each(parts.push(x)) =~= comma_each(parts) + ","@ + x);
    } else {
        lemma_comma_each_push(parts.drop_first(), x);
        assert(parts.push(x).drop_first() =~= parts.drop_first().push(x));
        assert(comma_each(parts.push(x)) =~= comma_each(parts) + ","@ + x);
    }
}

proof fn lemma_join_step(parts: Seq<Seq<char>>, i: int)
    requires
        0 <= i < parts.len(),
    ensures
        join(parts.subrange(0, i + 1)) == if i == 0 {
            parts[0]
        } else {
            join(parts.subrange(0, i)) + ","@ + parts[i]
        },
{
    let p = parts.subrange(0, i + 1);
    if i == 0 {
        assert(p.drop_first() =~= Seq::<Seq<char>>::empty());
        assert(join(p) =~= parts[0]);
    } else {
        let q = parts.subrange(0, i);
        assert(p.drop_first() =~= q.drop_first().push(parts[i]));
        lemma_comma_each_push(q.drop_first(), parts[i]);
        assert(join(p) =~= join(q) + ","@ + parts[i]);
    }
}

/// Appends bytes as a JSON array of numbers.
fn write_bytes(out: &mut String, b: &Vec<u8>)
    ensures
        final(out)@ == old(out)@ + json_array(b@.map_values(|x: u8| decimal(x as int))),
{
    let ghost start = old(out)@;
    let ghost parts = b@.map_values(|x: u8| decimal(x as int));
    out.append("[");
    let mut i: usize = 0;
    while i < b.len()
        invariant
            i <= b@.len(),
            parts == b@.map_values(|x: u8| decimal(x as int)),
            out@ == start + "["@ + join(parts.subrange(0, i as int)),
        decreases b@.len() - i,
    {
        proof {
            lemma_join_step(parts, i as int);
        }
        if i > 0 {
            out.append(",");
        }
        let t = integer_text(b[i] as i64);
        out.append(t.as_str());
        i = i + 1;
    }
    out.append("]");
    proof {
        assert(parts.subrange(0, i as int) =~= parts);
    }
}

/// Appends a scalar as JSON.
fn write_scalar(out: &mut String, s: &Scalar)
    ensures
        final(out)@ == old(out)@ + json_scalar(s@),
{
    match s {
        Scalar::Bool(b) => {
            if *b {
                out.append("true");
            } else {
                out.append("false");
            }
        },
        Scalar::Char(v) => {
            let t = integer_text(*v as i64);
            out.append(t.as_str());
        },
        Scalar::SmallInt(v) => {
            let t = integer_text(*v as i64);
            out.append(t.as_str());
        },
        Scalar::Int(v) => {
            let t = integer_text(*v as i64);
            out.append(t.as_str());
        },
        Scalar::Oid(v) => {
            let t = integer_text(*v as i64);
            out.append(t.as_str());
        },
        Scalar::BigInt(v) => {
            let t = integer_text(*v);
            out.append(t.as_str());
        },
        Scalar::Text(t) => {
            let q = quote(t.as_str());
            out.append(q.as_str());
        },
        Scalar::Bytea(b) => {
            write_bytes(out, b);
        },
        Scalar::Uuid(v) => {
            let t = uuid_text(*v);
            out.append("\"");
            out.append(t.as_str());
            out.append("\"");
        },
    }
}

/// Appends a list of scalars as a JSON array.
fn write_list(out: &mut String, items: &Vec<Scalar>)
    ensures
        final(out)@ == old(out)@ + json_array(
            items@.map_values(|s: Scalar| s@).map_values(|s: ScalarModel| json_scalar(s)),
        ),
{
    let ghost start = old(out)@;
    let ghost parts = items@.map_values(|s: Scalar| s@).map_values(|s: ScalarModel| json_scalar(s));
    out.append("[");
    let mut i: usize = 0;
    while i < items.len()
        invariant
            i <= items@.len(),
            parts == items@.map_values(|s: Scalar| s@).map_values(
                |s: ScalarModel| json_scalar(s),
            ),
            out@ == start + "["@ + join(parts.subrange(0, i as int)),
        decreases items@.len() - i,
    {
        proof {
            lemma_join_step(parts, i as int);
        }
        if i > 0 {
            out.append(",");
        }
        write_scalar(out, &items[i]);
        i = i + 1;
    }
    out.append("]");
    proof {
        assert(parts.subrange(0, i as int) =~= parts);
    }
}

/// Appends a field value as JSON.
fn write_field(out: &mut String, f: &FieldValue)
    ensures
        final(out)@ == old(out)@ + json_field(f@),
{
    match f {
        FieldValue::Plain(s) => write_scalar(out, s),
        FieldValue::Nullable(None) => out.append("null"),
        FieldValue::Nullable(Some(s)) => write_scalar(out, s),
        FieldValue::List(items) => write_list(out, items),
    }
}

impl RowConsumer {
    /// Appends a record of this type as JSON.
    fn write_record(&self, out: &mut String, rec: &Record)
        requires
            rec@.len() == self@.len(),
        ensures
            final(out)@ == old(out)@ + json_record(self@, rec@),
    {
        proof {
            use_type_invariant(self);
        }
        let ghost c = self@;
        if !self.is_named() {
            write_field(out, &rec.values[0]);
            return;
        }
        let ghost start = old(out)@;
        let ghost parts = Seq::new(c.len(), |i: int| json_member(c.field_names[i], rec@[i]));
        out.append("{");
        let mut i: usize = 0;
        while i < self.len()
            invariant
                c == self@,
                self@.wf(),
                rec@.len() == c.len(),
                i <= c.len(),
                parts == Seq::new(c.len(), |i: int| json_member(c.field_names[i], rec@[i])),
                out@ == start + "{"@ + join(parts.subrange(0, i as int)),
            decreases c.len() - i,
        {
            proof {
                lemma_join_step(parts, i as int);
            }
            if i > 0 {
                out.append(",");
            }
            let q = quote(self.field_name(i));
            out.append(q.as_str());
            out.append(":");
            write_field(out, &rec.values[i]);
            i = i + 1;
        }
        out.append("}");
        proof {
            assert(parts.subrange(0, i as int) =~= parts);
        }
    }

    /// The JSON text of a batch of records of this type: an array with one
    /// element per record, in order.
    pub fn to_json(&self, records: &Vec<Record>) -> (r: String)
        requires
            forall|i: int|
                0 <= i < records@.len() ==> (#[trigger] records@[i])@.len() == self@.len(),
        ensures
            r@ == json_batch(self@, records_model(records@)),
    {
        proof {
            use_type_invariant(self);
        }
        let ghost c = self@;
        let ghost parts = records_model(records@).map_values(
            |r: Seq<FieldModel>| json_record(c, r),
        );
        let mut out = String::from_str("[");
        let mut i: usize = 0;
        while i < records.len()
            invariant
                c == self@,
                self@.wf(),
                forall|i: int|
                    0 <= i < records@.len() ==> (#[trigger] records@[i])@.len() == c.len(),
                i <= records@.len(),
                parts == records_model(records@).map_values(
                    |r: Seq<FieldModel>| json_record(c, r),
                ),
                out@ == "["@ + join(parts.subrange(0, i as int)),
            decreases records@.len() - i,
        {
            proof {
                lemma_join_step(parts, i as int);
            }
            if i > 0 {
                out.append(",");
            }
            self.write_record(&mut out, &records[i]);
            i = i + 1;
        }
        out.append("]");
        proof {
            assert(parts.subrange(0, i as int) =~= parts);
        }
        out
    }

    /// Runs [`RowConsumer::consume`] on what the database returned and gives
    /// the records as JSON. Every failure, of the query or of a row, gives
    /// the same text: `null`.
    pub fn consume_json(&self, query_result: Option<Vec<Row>>) -> (r: Result<String, String>)
        ensures
            match query_result {
                Some(rows) if batch_clean(self@, rows_model(rows@)) => r matches Ok(t) && t@
                    == json_batch(self@, converted_all(self@, rows_model(rows@))),
                _ => r matches Err(t) && t@ == "null"@,
            },
    {
        proof {
            use_type_invariant(self);
        }
        let ghost q = query_result;
        match self.consume(query_result) {
            Ok(v) => {
                proof {
                    let m = rows_model(q->0@);
                    assert(records_model(v@).len() == v@.len());
                    assert(converted_all(self@, m).len() == m.len());
                    assert forall|i: int| 0 <= i < v@.len() implies (#[trigger] v@[i])@.len()
                        == self@.len() by {
                        assert(records_model(v@)[i] == v@[i]@);
                        assert(converted_all(self@, m)[i] == converted(self@, m[i]));
                    }
                }
                Ok(self.to_json(&v))
            },
            Err(_) => Err(String::from_str("null")),
        }
    }
}

} // verus!
