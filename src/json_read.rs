//! Reading the JSON text of a batch back into records, and the fact that
//! this recovers every value that was written.
use vstd::prelude::*;

use crate::consumer::{converted_all, record_typed, ConsumerModel};
use crate::json::{
    comma_each, decimal, digit, digits, escape_char, escaped, hex_digit, hex_run, hyphenated,
    join, json_batch, json_field, json_member, json_record, json_scalar, json_string,
    nibble,
};
use vstd::arithmetic::div_mod::{
    lemma_basic_div, lemma_div_denominator, lemma_div_pos_is_pos, lemma_fundamental_div_mod,
};
use vstd::arithmetic::power::{lemma_pow1, lemma_pow_adds, lemma_pow_positive, pow};
use crate::value::{base_of, field_typed, BaseType, FieldModel, FieldType, ScalarModel, Shape};

verus! {

/// Whether a character is a decimal digit.
pub open spec fn is_digit(ch: char) -> bool {
    '0' <= ch && ch <= '9'
}

/// The value of a decimal digit.
pub open spec fn digit_value(ch: char) -> int {
    ch as int - '0' as int
}

/// The number of decimal digits at the start of a text.
pub open spec fn digit_run(s: Seq<char>) -> nat
    decreases s.len(),
{
    if s.len() > 0 && is_digit(s[0]) {
        1 + digit_run(s.drop_first())
    } else {
        0
    }
}

/// The number that a run of decimal digits denotes.
pub open spec fn digits_value(d: Seq<char>) -> int
    decreases d.len(),
{
    if d.len() == 0 {
        0
    } else {
        digits_value(d.drop_last()) * 10 + digit_value(d.last())
    }
}

/// Reads the digits at the start of a text as a number, with what follows.
pub open spec fn read_natural(s: Seq<char>) -> Option<(int, Seq<char>)> {
    let k = digit_run(s) as int;
    if k == 0 {
        None
    } else {
        Some((digits_value(s.take(k)), s.skip(k)))
    }
}

/// Reads a decimal integer, possibly negative, at the start of a text.
pub open spec fn read_integer(s: Seq<char>) -> Option<(int, Seq<char>)> {
    if s.len() > 0 && s[0] == '-' {
        match read_natural(s.drop_first()) {
            Some((n, r)) => Some((-n, r)),
            None => None,
        }
    } else {
        read_natural(s)
    }
}

/// What may follow a value inside an array or object: a comma or a
/// closing bracket or brace.
pub open spec fn follows(rest: Seq<char>) -> bool {
    rest.len() > 0 && (rest[0] == ',' || rest[0] == ']' || rest[0] == '}')
}

proof fn lemma_digits_are_digits(n: nat)
    ensures
        digits(n).len() > 0,
        forall|i: int| 0 <= i < digits(n).len() ==> is_digit(#[trigger] digits(n)[i]),
        digits_value(digits(n)) == n,
    decreases n,
{
    if n >= 10 {
        lemma_digits_are_digits(n / 10);
        let d = digits(n);
        assert(d.drop_last() =~= digits(n / 10));
        assert(d.last() == digit(n % 10));
        assert(digit_value(digit(n % 10)) == n % 10);
        assert(digits_value(d) == digits_value(digits(n / 10)) * 10 + digit_value(d.last()));
        assert((n / 10) * 10 + n % 10 == n);
    } else {
        let d = digits(n);
        assert(digit_value(digit(n)) == n);
        assert(d.drop_last() =~= Seq::<char>::empty());
        assert(digits_value(d.drop_last()) == 0);
        assert(digits_value(d) == digit_value(d.last()));
    }
}

proof fn lemma_digit_run(d: Seq<char>, rest: Seq<char>)
    requires
        forall|i: int| 0 <= i < d.len() ==> is_digit(#[trigger] d[i]),
        !(rest.len() > 0 && is_digit(rest[0])),
    ensures
        digit_run(d + rest) == d.len(),
    decreases d.len(),
{
    if d.len() > 0 {
        assert((d + rest).drop_first() =~= d.drop_first() + rest);
        assert(is_digit(d[0]));
        lemma_digit_run(d.drop_first(), rest);
    } else {
        assert(d + rest =~= rest);
    }
}

proof fn lemma_read_natural(n: nat, rest: Seq<char>)
    requires
        !(rest.len() > 0 && is_digit(rest[0])),
    ensures
        read_natural(digits(n) + rest) == Some((n as int, rest)),
{
    lemma_digits_are_digits(n);
    lemma_digit_run(digits(n), rest);
    let s = digits(n) + rest;
    assert(s.take(digits(n).len() as int) =~= digits(n));
    assert(s.skip(digits(n).len() as int) =~= rest);
}

/// An integer written in decimal reads back as itself, whatever comma or
/// bracket follows it.
proof fn lemma_read_integer(n: int, rest: Seq<char>)
    requires
        follows(rest),
    ensures
        read_integer(decimal(n) + rest) == Some((n, rest)),
        decimal(n).len() > 0,
        decimal(n)[0] != ']' && decimal(n)[0] != '}' && decimal(n)[0] != 'n',
{
    if n < 0 {
        let m = (-n) as nat;
        lemma_read_natural(m, rest);
        lemma_digits_are_digits(m);
        assert((decimal(n) + rest).drop_first() =~= digits(m) + rest);
    } else {
        lemma_read_natural(n as nat, rest);
        lemma_digits_are_digits(n as nat);
        assert(is_digit(digits(n as nat)[0]));
        assert((decimal(n) + rest)[0] == digits(n as nat)[0]);
    }
}

/// The value of a lowercase hexadecimal digit.
pub open spec fn hex_value(ch: char) -> int {
    if is_digit(ch) {
        digit_value(ch)
    } else {
        ch as int - 'a' as int + 10
    }
}

/// Whether a character is a lowercase hexadecimal digit.
pub open spec fn is_hex(ch: char) -> bool {
    is_digit(ch) || ('a' <= ch && ch <= 'f')
}

/// The code point of a character.
pub open spec fn char_code(c: char) -> int {
    c as int
}

/// The character that a two-character escape stands for.
pub open spec fn short_escape(e: char) -> Option<char> {
    if e == '"' {
        Some('"')
    } else if e == '\\' {
        Some('\\')
    } else if e == '/' {
        Some('/')
    } else if e == 'b' {
        Some('\x08')
    } else if e == 'f' {
        Some('\x0c')
    } else if e == 'n' {
        Some('\n')
    } else if e == 'r' {
        Some('\r')
    } else if e == 't' {
        Some('\t')
    } else {
        None
    }
}

/// Reads the contents of a JSON string up to its closing quote, undoing
/// escapes, with what follows the quote.
pub open spec fn read_chars(s: Seq<char>) -> Option<(Seq<char>, Seq<char>)>
    decreases s.len(),
{
    if s.len() == 0 {
        None
    } else if s[0] == '"' {
        Some((Seq::empty(), s.drop_first()))
    } else if s[0] != '\\' {
        match read_chars(s.drop_first()) {
            Some((t, r)) => Some((seq![s[0]] + t, r)),
            None => None,
        }
    } else if s.len() >= 6 && s[1] == 'u' && is_hex(s[2]) && is_hex(s[3]) && is_hex(s[4])
        && is_hex(s[5]) {
        let n = ((hex_value(s[2]) * 16 + hex_value(s[3])) * 16 + hex_value(s[4])) * 16
            + hex_value(s[5]);
        if exists|c: char| char_code(c) == n {
            let c = choose|c: char| char_code(c) == n;
            match read_chars(s.skip(6)) {
                Some((t, r)) => Some((seq![c] + t, r)),
                None => None,
            }
        } else {
            None
        }
    } else if s.len() >= 2 && short_escape(s[1]) is Some {
        match read_chars(s.skip(2)) {
            Some((t, r)) => Some((seq![short_escape(s[1])->0] + t, r)),
            None => None,
        }
    } else {
        None
    }
}

/// Reads a JSON string at the start of a text.
pub open spec fn read_string(s: Seq<char>) -> Option<(Seq<char>, Seq<char>)> {
    if s.len() > 0 && s[0] == '"' {
        read_chars(s.drop_first())
    } else {
        None
    }
}

proof fn lemma_read_escape(ch: char, x: Seq<char>)
    ensures
        read_chars(escape_char(ch) + x) == match read_chars(x) {
            Some((t, r)) => Some((seq![ch] + t, r)),
            None => None::<(Seq<char>, Seq<char>)>,
        },
{
    let s = escape_char(ch) + x;
    if ch == '"' || ch == '\\' || ch == '\x08' || ch == '\x0c' || ch == '\n' || ch == '\r' || ch
        == '\t' {
        assert(s.skip(2) =~= x);
    } else if (ch as int) < 0x20 {
        let n = ch as int;
        assert(hex_value(hex_digit(n / 16)) == n / 16);
        assert(hex_value(hex_digit(n % 16)) == n % 16);
        assert(s.skip(6) =~= x);
        assert(char_code(ch) == n);
        let c = choose|c: char| char_code(c) == n;
        assert(char_code(c) == char_code(ch));
        assert(c == ch);
    } else {
        assert(s.drop_first() =~= x);
    }
}

proof fn lemma_read_escaped(t: Seq<char>, rest: Seq<char>)
    ensures
        read_chars(escaped(t) + seq!['"'] + rest) == Some((t, rest)),
    decreases t.len(),
{
    if t.len() == 0 {
        assert(escaped(t) + seq!['"'] + rest =~= seq!['"'] + rest);
        assert((seq!['"'] + rest).drop_first() =~= rest);
    } else {
        let x = escaped(t.drop_first()) + seq!['"'] + rest;
        lemma_read_escaped(t.drop_first(), rest);
        lemma_read_escape(t[0], x);
        assert(escaped(t) + seq!['"'] + rest =~= escape_char(t[0]) + x);
        assert(seq![t[0]] + t.drop_first() =~= t);
    }
}

/// A text written as a JSON string reads back as itself.
proof fn lemma_read_string(t: Seq<char>, rest: Seq<char>)
    ensures
        read_string(json_string(t) + rest) == Some((t, rest)),
        json_string(t).len() > 0 && json_string(t)[0] == '"',
{
    lemma_read_escaped(t, rest);
    assert((json_string(t) + rest).drop_first() =~= escaped(t) + seq!['"'] + rest);
}

/// Reads the elements that follow the first one, each after a comma, up to
/// the closing `close`; `f` reads element `i` and what follows it.
pub open spec fn read_more<A>(
    f: spec_fn(int, Seq<char>) -> Option<(A, Seq<char>)>,
    close: char,
    s: Seq<char>,
    i: int,
) -> Option<(Seq<A>, Seq<char>)>
    decreases s.len(),
{
    if s.len() == 0 {
        None
    } else if s[0] == close {
        Some((Seq::empty(), s.drop_first()))
    } else if s[0] == ',' {
        match f(i, s.drop_first()) {
            Some((x, r)) => if r.len() < s.len() {
                match read_more(f, close, r, i + 1) {
                    Some((xs, r2)) => Some((seq![x] + xs, r2)),
                    None => None,
                }
            } else {
                None
            },
            None => None,
        }
    } else {
        None
    }
}

/// Reads comma-separated elements between `open` and `close`.
pub open spec fn read_items<A>(
    f: spec_fn(int, Seq<char>) -> Option<(A, Seq<char>)>,
    open: char,
    close: char,
    s: Seq<char>,
) -> Option<(Seq<A>, Seq<char>)> {
    if s.len() > 0 && s[0] == open {
        let t = s.drop_first();
        if t.len() > 0 && t[0] == close {
            Some((Seq::empty(), t.drop_first()))
        } else {
            match f(0, t) {
                Some((x, r)) => if r.len() < t.len() {
                    match read_more(f, close, r, 1) {
                        Some((xs, r2)) => Some((seq![x] + xs, r2)),
                        None => None,
                    }
                } else {
                    None
                },
                None => None,
            }
        }
    } else {
        None
    }
}

/// Whether `enc`, followed by a comma or a closing bracket or brace, reads
/// back through `f` as element `i` with value `x`.
pub open spec fn reads_back<A>(
    f: spec_fn(int, Seq<char>) -> Option<(A, Seq<char>)>,
    i: int,
    x: A,
    enc: Seq<char>,
) -> bool {
    &&& enc.len() > 0
    &&& enc[0] != ']' && enc[0] != '}'
    &&& forall|rest: Seq<char>| follows(rest) ==> #[trigger] f(i, enc + rest) == Some((x, rest))
}

proof fn lemma_read_more<A>(
    f: spec_fn(int, Seq<char>) -> Option<(A, Seq<char>)>,
    close: char,
    xs: Seq<A>,
    encs: Seq<Seq<char>>,
    i: int,
    rest: Seq<char>,
)
    requires
        close == ']' || close == '}',
        xs.len() == encs.len(),
        forall|k: int| 0 <= k < xs.len() ==> reads_back(f, i + k, #[trigger] xs[k], encs[k]),
    ensures
        read_more(f, close, comma_each(encs) + seq![close] + rest, i) == Some((xs, rest)),
    decreases xs.len(),
{
    reveal_strlit(",");
    let s = comma_each(encs) + seq![close] + rest;
    if xs.len() == 0 {
        assert(s =~= seq![close] + rest);
        assert(s.drop_first() =~= rest);
    } else {
        let r = comma_each(encs.drop_first()) + seq![close] + rest;
        assert(s =~= seq![','] + (encs[0] + r));
        assert(s.drop_first() =~= encs[0] + r);
        if encs.drop_first().len() > 0 {
            assert(r[0] == ',');
        } else {
            assert(r[0] == close);
        }
        assert(reads_back(f, i + 0, xs[0], encs[0]));
        assert(f(i, encs[0] + r) == Some((xs[0], r)));
        assert forall|k: int| 0 <= k < xs.drop_first().len() implies reads_back(
            f,
            (i + 1) + k,
            #[trigger] xs.drop_first()[k],
            encs.drop_first()[k],
        ) by {
            assert(reads_back(f, i + (k + 1), xs[k + 1], encs[k + 1]));
        }
        lemma_read_more(f, close, xs.drop_first(), encs.drop_first(), i + 1, rest);
        assert(seq![xs[0]] + xs.drop_first() =~= xs);
    }
}

/// Elements written between `open` and `close`, separated by commas, read
/// back as themselves.
proof fn lemma_read_items<A>(
    f: spec_fn(int, Seq<char>) -> Option<(A, Seq<char>)>,
    open: char,
    close: char,
    xs: Seq<A>,
    encs: Seq<Seq<char>>,
    rest: Seq<char>,
)
    requires
        close == ']' || close == '}',
        xs.len() == encs.len(),
        forall|k: int| 0 <= k < xs.len() ==> reads_back(f, k, #[trigger] xs[k], encs[k]),
    ensures
        read_items(f, open, close, seq![open] + join(encs) + seq![close] + rest) == Some(
            (xs, rest),
        ),
{
    let s = seq![open] + join(encs) + seq![close] + rest;
    let t = s.drop_first();
    assert(t =~= join(encs) + seq![close] + rest);
    if xs.len() == 0 {
        assert(t =~= seq![close] + rest);
        assert(t.drop_first() =~= rest);
    } else {
        let r = comma_each(encs.drop_first()) + seq![close] + rest;
        assert(t =~= encs[0] + r);
        assert(reads_back(f, 0int + 0, xs[0], encs[0]));
        reveal_strlit(",");
        if encs.drop_first().len() > 0 {
            assert(r[0] == ',');
        } else {
            assert(r[0] == close);
        }
        assert(f(0, encs[0] + r) == Some((xs[0], r)));
        assert forall|k: int| 0 <= k < xs.drop_first().len() implies reads_back(
            f,
            1 + k,
            #[trigger] xs.drop_first()[k],
            encs.drop_first()[k],
        ) by {
            assert(reads_back(f, 0int + (k + 1), xs[k + 1], encs[k + 1]));
        }
        lemma_read_more(f, close, xs.drop_first(), encs.drop_first(), 1, rest);
        assert(seq![xs[0]] + xs.drop_first() =~= xs);
    }
}

/// Whether a text starts with `w`.
pub open spec fn starts_with(s: Seq<char>, w: Seq<char>) -> bool {
    s.len() >= w.len() && s.take(w.len() as int) == w
}

/// Reads a number from 0 to 255.
pub open spec fn read_byte(s: Seq<char>) -> Option<(u8, Seq<char>)> {
    match read_integer(s) {
        Some((n, r)) => if 0 <= n <= 255 {
            Some((n as u8, r))
        } else {
            None
        },
        None => None,
    }
}

/// [`read_byte`] as an element reader.
pub open spec fn byte_reader() -> spec_fn(int, Seq<char>) -> Option<(u8, Seq<char>)> {
    |i: int, s: Seq<char>| read_byte(s)
}

/// The number that a run of hexadecimal digits denotes.
pub open spec fn hex_run_value(d: Seq<char>) -> int
    decreases d.len(),
{
    if d.len() == 0 {
        0
    } else {
        hex_run_value(d.drop_last()) * 16 + hex_value(d.last())
    }
}

/// The 32 digits of a UUID's hyphenated form, without the hyphens.
pub open spec fn uuid_digits(h: Seq<char>) -> Seq<char> {
    h.subrange(0, 8) + h.subrange(9, 13) + h.subrange(14, 18) + h.subrange(19, 23) + h.subrange(
        24,
        36,
    )
}

/// Reads a UUID written as a JSON string in its hyphenated form.
pub open spec fn read_uuid(s: Seq<char>) -> Option<(u128, Seq<char>)> {
    if s.len() >= 38 && s[0] == '"' && s[37] == '"' {
        let h = s.subrange(1, 37);
        let d = uuid_digits(h);
        if h[8] == '-' && h[13] == '-' && h[18] == '-' && h[23] == '-' && (forall|k: int|
            0 <= k < 32 ==> is_hex(#[trigger] d[k])) && 0 <= hex_run_value(d) <= u128::MAX {
            Some((hex_run_value(d) as u128, s.skip(38)))
        } else {
            None
        }
    } else {
        None
    }
}

/// Reads a scalar of a base type.
pub open spec fn read_scalar(base: BaseType, s: Seq<char>) -> Option<(ScalarModel, Seq<char>)> {
    match base {
        BaseType::Bool => if starts_with(s, "true"@) {
            Some((ScalarModel::Bool(true), s.skip(4)))
        } else if starts_with(s, "false"@) {
            Some((ScalarModel::Bool(false), s.skip(5)))
        } else {
            None
        },
        BaseType::Char => match read_integer(s) {
            Some((n, r)) => if i8::MIN <= n <= i8::MAX {
                Some((ScalarModel::Char(n as i8), r))
            } else {
                None
            },
            None => None,
        },
        BaseType::SmallInt => match read_integer(s) {
            Some((n, r)) => if i16::MIN <= n <= i16::MAX {
                Some((ScalarModel::SmallInt(n as i16), r))
            } else {
                None
            },
            None => None,
        },
        BaseType::Int => match read_integer(s) {
            Some((n, r)) => if i32::MIN <= n <= i32::MAX {
                Some((ScalarModel::Int(n as i32), r))
            } else {
                None
            },
            None => None,
        },
        BaseType::Oid => match read_integer(s) {
            Some((n, r)) => if 0 <= n <= u32::MAX {
                Some((ScalarModel::Oid(n as u32), r))
            } else {
                None
            },
            None => None,
        },
        BaseType::BigInt => match read_integer(s) {
            Some((n, r)) => if i64::MIN <= n <= i64::MAX {
                Some((ScalarModel::BigInt(n as i64), r))
            } else {
                None
            },
            None => None,
        },
        BaseType::Text => match read_string(s) {
            Some((t, r)) => Some((ScalarModel::Text(t), r)),
            None => None,
        },
        BaseType::Bytea => match read_items(byte_reader(), '[', ']', s) {
            Some((b, r)) => Some((ScalarModel::Bytea(b), r)),
            None => None,
        },
        BaseType::Uuid => match read_uuid(s) {
            Some((v, r)) => Some((ScalarModel::Uuid(v), r)),
            None => None,
        },
    }
}

/// [`read_scalar`] as an element reader.
pub open spec fn scalar_reader(base: BaseType) -> spec_fn(int, Seq<char>) -> Option<
    (ScalarModel, Seq<char>),
> {
    |i: int, s: Seq<char>| read_scalar(base, s)
}

/// Reads a value of a field type.
pub open spec fn read_field(ty: FieldType, s: Seq<char>) -> Option<(FieldModel, Seq<char>)> {
    match ty.shape {
        Shape::Plain => match read_scalar(ty.base, s) {
            Some((x, r)) => Some((FieldModel::Plain(x), r)),
            None => None,
        },
        Shape::Nullable => if starts_with(s, "null"@) {
            Some((FieldModel::Nullable(None), s.skip(4)))
        } else {
            match read_scalar(ty.base, s) {
                Some((x, r)) => Some((FieldModel::Nullable(Some(x)), r)),
                None => None,
            }
        },
        Shape::List => match read_items(scalar_reader(ty.base), '[', ']', s) {
            Some((xs, r)) => Some((FieldModel::List(xs), r)),
            None => None,
        },
    }
}

/// Reads member `i` of an object: the name of field `i`, a colon, and a
/// value of that field's type.
pub open spec fn read_member(c: ConsumerModel, i: int, s: Seq<char>) -> Option<
    (FieldModel, Seq<char>),
> {
    match read_string(s) {
        Some((name, r)) => if 0 <= i < c.len() && name == c.field_names[i] && r.len() > 0 && r[0]
            == ':' {
            read_field(c.field_types[i], r.drop_first())
        } else {
            None
        },
        None => None,
    }
}

/// [`read_member`] as an element reader.
pub open spec fn member_reader(c: ConsumerModel) -> spec_fn(int, Seq<char>) -> Option<
    (FieldModel, Seq<char>),
> {
    |i: int, s: Seq<char>| read_member(c, i, s)
}

/// Reads a record of a type.
pub open spec fn read_record(c: ConsumerModel, s: Seq<char>) -> Option<
    (Seq<FieldModel>, Seq<char>),
> {
    if c.named {
        match read_items(member_reader(c), '{', '}', s) {
            Some((vs, r)) => if vs.len() == c.len() {
                Some((vs, r))
            } else {
                None
            },
            None => None,
        }
    } else {
        match read_field(c.field_types[0], s) {
            Some((v, r)) => Some((seq![v], r)),
            None => None,
        }
    }
}

/// [`read_record`] as an element reader.
pub open spec fn record_reader(c: ConsumerModel) -> spec_fn(int, Seq<char>) -> Option<
    (Seq<FieldModel>, Seq<char>),
> {
    |i: int, s: Seq<char>| read_record(c, s)
}

/// Reads the JSON text of a batch of records of a type; the text must hold
/// nothing else.
pub open spec fn read_batch(c: ConsumerModel, text: Seq<char>) -> Option<Seq<Seq<FieldModel>>> {
    match read_items(record_reader(c), '[', ']', text) {
        Some((recs, r)) => if r.len() == 0 {
            Some(recs)
        } else {
            None
        },
        None => None,
    }
}

proof fn lemma_hex_prefix(v: u128, m: int)
    requires
        0 <= m <= 32,
    ensures
        hex_run_value(hex_run(v, 0, m)) == v as int / pow(16, (32 - m) as nat),
    decreases m,
{
    lemma_pow_positive(16, (32 - m) as nat);
    if m == 0 {
        reveal_with_fuel(pow, 33);
        assert(pow(16, 32) == 0x1_0000_0000_0000_0000_0000_0000_0000_0000);
        lemma_basic_div(v as int, pow(16, 32));
        assert(hex_run(v, 0, 0) =~= Seq::<char>::empty());
    } else {
        lemma_hex_prefix(v, m - 1);
        let d = hex_run(v, 0, m);
        assert(d.drop_last() =~= hex_run(v, 0, m - 1));
        let p = pow(16, (32 - m) as nat);
        let a = v as int / p;
        lemma_div_pos_is_pos(v as int, p);
        let n = nibble(v, m - 1);
        assert(n == a % 16);
        assert(d.last() == hex_digit(n));
        assert(hex_value(hex_digit(n)) == n);
        lemma_pow_adds(16, (32 - m) as nat, 1);
        lemma_pow1(16);
        assert(pow(16, (32 - (m - 1)) as nat) == p * 16);
        lemma_div_denominator(v as int, p, 16);
        lemma_fundamental_div_mod(a, 16);
    }
}

proof fn lemma_read_uuid(v: u128, rest: Seq<char>)
    ensures
        read_uuid("\""@ + hyphenated(v) + "\""@ + rest) == Some((v, rest)),
{
    reveal_strlit("\"");
    let s = "\""@ + hyphenated(v) + "\""@ + rest;
    let h = s.subrange(1, 37);
    assert(hyphenated(v).len() == 36);
    assert(h =~= hyphenated(v));
    let d = uuid_digits(h);
    assert(d =~= hex_run(v, 0, 32));
    assert forall|k: int| 0 <= k < 32 implies is_hex(#[trigger] d[k]) by {
        assert(d[k] == hex_digit(nibble(v, k)));
    }
    lemma_hex_prefix(v, 32);
    assert(pow(16, 0) == 1) by {
        reveal(pow);
    }
    assert(s.skip(38) =~= rest);
}

proof fn lemma_read_scalar(x: ScalarModel, rest: Seq<char>)
    requires
        follows(rest),
    ensures
        read_scalar(base_of(x), json_scalar(x) + rest) == Some((x, rest)),
        json_scalar(x).len() > 0,
        json_scalar(x)[0] != ']' && json_scalar(x)[0] != '}' && json_scalar(x)[0] != 'n',
{
    let s = json_scalar(x) + rest;
    match x {
        ScalarModel::Bool(b) => {
            reveal_strlit("true");
            reveal_strlit("false");
            if b {
                assert(s.take(4) =~= "true"@);
                assert(s.skip(4) =~= rest);
            } else {
                assert(s.take(5) =~= "false"@);
                assert(s.skip(5) =~= rest);
                assert(s[0] == 'f');
            }
        },
        ScalarModel::Char(v) => lemma_read_integer(v as int, rest),
        ScalarModel::SmallInt(v) => lemma_read_integer(v as int, rest),
        ScalarModel::Int(v) => lemma_read_integer(v as int, rest),
        ScalarModel::Oid(v) => lemma_read_integer(v as int, rest),
        ScalarModel::BigInt(v) => lemma_read_integer(v as int, rest),
        ScalarModel::Text(t) => lemma_read_string(t, rest),
        ScalarModel::Bytea(b) => {
            let encs = b.map_values(|y: u8| decimal(y as int));
            assert forall|k: int| 0 <= k < b.len() implies reads_back(
                byte_reader(),
                k,
                #[trigger] b[k],
                encs[k],
            ) by {
                assert forall|r: Seq<char>| follows(r) implies #[trigger] byte_reader()(
                    k,
                    encs[k] + r,
                ) == Some((b[k], r)) by {
                    lemma_read_integer(b[k] as int, r);
                }
                lemma_read_integer(b[k] as int, rest);
            }
            lemma_read_items(byte_reader(), '[', ']', b, encs, rest);
            reveal_strlit("[");
            reveal_strlit("]");
            assert(s =~= seq!['['] + join(encs) + seq![']'] + rest);
        },
        ScalarModel::Uuid(v) => {
            reveal_strlit("\"");
            lemma_read_uuid(v, rest);
        },
    }
}

proof fn lemma_read_field(v: FieldModel, ty: FieldType, rest: Seq<char>)
    requires
        field_typed(v, ty),
        follows(rest),
    ensures
        read_field(ty, json_field(v) + rest) == Some((v, rest)),
        json_field(v).len() > 0,
        json_field(v)[0] != ']' && json_field(v)[0] != '}',
{
    let s = json_field(v) + rest;
    reveal_strlit("null");
    match v {
        FieldModel::Plain(x) => lemma_read_scalar(x, rest),
        FieldModel::Nullable(None) => {
            assert(s.take(4) =~= "null"@);
            assert(s.skip(4) =~= rest);
        },
        FieldModel::Nullable(Some(x)) => {
            lemma_read_scalar(x, rest);
            assert(s[0] == json_scalar(x)[0]);
            if s.len() >= 4 {
                assert(s.take(4)[0] != "null"@[0]);
            }
        },
        FieldModel::List(xs) => {
            let encs = xs.map_values(|y: ScalarModel| json_scalar(y));
            assert forall|k: int| 0 <= k < xs.len() implies reads_back(
                scalar_reader(ty.base),
                k,
                #[trigger] xs[k],
                encs[k],
            ) by {
                assert(base_of(xs[k]) == ty.base);
                assert forall|r: Seq<char>| follows(r) implies #[trigger] scalar_reader(ty.base)(
                    k,
                    encs[k] + r,
                ) == Some((xs[k], r)) by {
                    lemma_read_scalar(xs[k], r);
                }
                lemma_read_scalar(xs[k], rest);
            }
            lemma_read_items(scalar_reader(ty.base), '[', ']', xs, encs, rest);
            reveal_strlit("[");
            reveal_strlit("]");
            assert(s =~= seq!['['] + join(encs) + seq![']'] + rest);
        },
    }
}

proof fn lemma_read_member(c: ConsumerModel, i: int, v: FieldModel, rest: Seq<char>)
    requires
        c.wf(),
        0 <= i < c.len(),
        field_typed(v, c.field_types[i]),
        follows(rest),
    ensures
        read_member(c, i, json_member(c.field_names[i], v) + rest) == Some((v, rest)),
        json_member(c.field_names[i], v).len() > 0,
        json_member(c.field_names[i], v)[0] == '"',
{
    reveal_strlit(":");
    let name = c.field_names[i];
    let r = ":"@ + json_field(v) + rest;
    lemma_read_string(name, r);
    lemma_read_field(v, c.field_types[i], rest);
    assert(json_member(name, v) + rest =~= json_string(name) + r);
    assert(r.drop_first() =~= json_field(v) + rest);
}

proof fn lemma_read_record(c: ConsumerModel, rec: Seq<FieldModel>, rest: Seq<char>)
    requires
        c.wf(),
        record_typed(c, rec),
        follows(rest),
    ensures
        read_record(c, json_record(c, rec) + rest) == Some((rec, rest)),
        json_record(c, rec).len() > 0,
        json_record(c, rec)[0] != ']' && json_record(c, rec)[0] != '}',
{
    if c.named {
        let encs = Seq::new(c.len(), |i: int| json_member(c.field_names[i], rec[i]));
        assert forall|k: int| 0 <= k < rec.len() implies reads_back(
            member_reader(c),
            k,
            #[trigger] rec[k],
            encs[k],
        ) by {
            assert(field_typed(rec[k], c.field_types[k]));
            assert forall|r: Seq<char>| follows(r) implies #[trigger] member_reader(c)(
                k,
                encs[k] + r,
            ) == Some((rec[k], r)) by {
                lemma_read_member(c, k, rec[k], r);
            }
            lemma_read_member(c, k, rec[k], rest);
        }
        lemma_read_items(member_reader(c), '{', '}', rec, encs, rest);
        reveal_strlit("{");
        reveal_strlit("}");
        assert(json_record(c, rec) + rest =~= seq!['{'] + join(encs) + seq!['}'] + rest);
    } else {
        assert(field_typed(rec[0], c.field_types[0]));
        lemma_read_field(rec[0], c.field_types[0], rest);
        assert(seq![rec[0]] =~= rec);
    }
}

/// Reading back the JSON text of a batch of records of a type recovers
/// every record and every field value.
pub proof fn lemma_json_round_trip(c: ConsumerModel, recs: Seq<Seq<FieldModel>>)
    requires
        c.wf(),
        forall|i: int| 0 <= i < recs.len() ==> record_typed(c, #[trigger] recs[i]),
    ensures
        read_batch(c, json_batch(c, recs)) == Some(recs),
{
    let encs = recs.map_values(|r: Seq<FieldModel>| json_record(c, r));
    let empty = Seq::<char>::empty();
    assert forall|k: int| 0 <= k < recs.len() implies reads_back(
        record_reader(c),
        k,
        #[trigger] recs[k],
        encs[k],
    ) by {
        assert forall|r: Seq<char>| follows(r) implies #[trigger] record_reader(c)(
            k,
            encs[k] + r,
        ) == Some((recs[k], r)) by {
            lemma_read_record(c, recs[k], r);
        }
        lemma_read_record(c, recs[k], seq![']']);
    }
    lemma_read_items(record_reader(c), '[', ']', recs, encs, empty);
    reveal_strlit("[");
    reveal_strlit("]");
    assert(json_batch(c, recs) =~= seq!['['] + join(encs) + seq![']'] + empty);
}

/// The records that any batch of rows converts into, written as JSON, read
/// back as themselves.
pub proof fn lemma_batch_json_round_trip(c: ConsumerModel, rows: Seq<Seq<crate::value::CellModel>>)
    requires
        c.wf(),
    ensures
        read_batch(c, json_batch(c, converted_all(c, rows))) == Some(converted_all(c, rows)),
{
    let recs = converted_all(c, rows);
    assert forall|i: int| 0 <= i < recs.len() implies record_typed(c, #[trigger] recs[i]) by {
        crate::consumer::lemma_converted_typed(c, rows[i]);
    }
    lemma_json_round_trip(c, recs);
}

} // verus!
