use crate::fields::{RecordedValue, Scalar};
use vstd::prelude::*;
use vstd::string::*;

verus! {

#[verifier::external_type_specification]
#[verifier::external_body]
pub struct ExJsonError(serde_json::Error);

/// A lowercase hexadecimal digit.
pub open spec fn hex_digit(d: u32) -> char {
    if d < 10 {
        ((d + 48) as u8) as char
    } else {
        ((d + 87) as u8) as char
    }
}

/// How one character stands inside a JSON string: a quote and a backslash
/// are escaped by a backslash, the control characters below U+0020 by
/// their short escape or by `\u00` and two hex digits, and every other
/// character stands for itself.
pub open spec fn escaped_char(c: char) -> Seq<char> {
    let n = c as u32;
    if c == '"' {
        seq!['\\', '"']
    } else if c == '\\' {
        seq!['\\', '\\']
    } else if n == 8 {
        seq!['\\', 'b']
    } else if n == 9 {
        seq!['\\', 't']
    } else if n == 10 {
        seq!['\\', 'n']
    } else if n == 12 {
        seq!['\\', 'f']
    } else if n == 13 {
        seq!['\\', 'r']
    } else if n < 32 {
        seq!['\\', 'u', '0', '0', hex_digit(n / 16), hex_digit(n % 16)]
    } else {
        seq![c]
    }
}

/// The characters of `s`, each escaped.
pub open spec fn escaped(s: Seq<char>) -> Seq<char>
    decreases s.len(),
{
    if s.len() == 0 {
        Seq::empty()
    } else {
        escaped(s.drop_last()) + escaped_char(s.last())
    }
}

/// The JSON string literal that encodes `s`: its escaped characters
/// between quotes.
#[verifier::opaque]
pub open spec fn json_quoted(s: Seq<char>) -> Seq<char> {
    seq!['"'] + escaped(s) + seq!['"']
}

/// Relies on `serde_json::to_string` on a `str`: the JSON string literal of
/// the text, escaped as serde_json's escape table says. Writing into its
/// in-memory buffer cannot fail.
#[verifier::external_body]
pub(crate) fn quote(s: &str) -> (r: Result<String, serde_json::Error>)
    ensures
        r is Ok,
        r matches Ok(q) ==> q@ == json_quoted(s@),
{
    serde_json::to_string(s)
}

pub open spec fn digit_text(d: int) -> Seq<char> {
    if d == 0 {
        "0"@
    } else if d == 1 {
        "1"@
    } else if d == 2 {
        "2"@
    } else if d == 3 {
        "3"@
    } else if d == 4 {
        "4"@
    } else if d == 5 {
        "5"@
    } else if d == 6 {
        "6"@
    } else if d == 7 {
        "7"@
    } else if d == 8 {
        "8"@
    } else {
        "9"@
    }
}

/// The decimal digits of `n`, without leading zeros.
pub open spec fn decimal(n: nat) -> Seq<char>
    decreases n,
{
    if n < 10 {
        digit_text(n as int)
    } else {
        decimal(n / 10) + digit_text((n % 10) as int)
    }
}

/// The JSON text of an integer.
pub open spec fn int_text(i: int) -> Seq<char> {
    if i < 0 {
        "-"@ + decimal((-i) as nat)
    } else {
        decimal(i as nat)
    }
}

pub open spec fn scalar_text(v: Scalar) -> Seq<char> {
    match v {
        Scalar::Null => "null"@,
        Scalar::Bool(b) => if b {
            "true"@
        } else {
            "false"@
        },
        Scalar::Int(i) => int_text(i),
        Scalar::Number(t) => t,
        Scalar::Text(t) => json_quoted(t),
    }
}

/// The parts, with `sep` between each two.
pub open spec fn joined(parts: Seq<Seq<char>>, sep: Seq<char>) -> Seq<char>
    decreases parts.len(),
{
    if parts.len() == 0 {
        Seq::empty()
    } else if parts.len() == 1 {
        parts[0]
    } else {
        joined(parts.drop_last(), sep) + sep + parts.last()
    }
}

/// The parts, separated by commas.
pub open spec fn comma_joined(parts: Seq<Seq<char>>) -> Seq<char> {
    joined(parts, ","@)
}

/// A member of a JSON object: the key, a colon and the value's text.
pub open spec fn member_text(key: Seq<char>, value: Seq<char>) -> Seq<char> {
    json_quoted(key) + ":"@ + value
}

/// A JSON object whose members are given as keys and value texts.
pub open spec fn object_text(members: Seq<(Seq<char>, Seq<char>)>) -> Seq<char> {
    "{"@ + comma_joined(members.map_values(|m: (Seq<char>, Seq<char>)| member_text(m.0, m.1)))
        + "}"@
}

/// A JSON object whose members hold scalars.
pub open spec fn scalar_object_text(members: Seq<(Seq<char>, Scalar)>) -> Seq<char> {
    object_text(members.map_values(|m: (Seq<char>, Scalar)| (m.0, scalar_text(m.1))))
}

/// The value of an output field: a scalar, or a list of objects.
pub enum JsonField {
    Scalar(Scalar),
    Objects(Seq<Seq<(Seq<char>, Scalar)>>),
}

pub open spec fn field_text(f: JsonField) -> Seq<char> {
    match f {
        JsonField::Scalar(s) => scalar_text(s),
        JsonField::Objects(os) => "["@ + comma_joined(
            os.map_values(|o: Seq<(Seq<char>, Scalar)>| scalar_object_text(o)),
        ) + "]"@,
    }
}

/// The text of a whole output record.
pub open spec fn record_text(fields: Seq<(Seq<char>, JsonField)>) -> Seq<char> {
    object_text(fields.map_values(|m: (Seq<char>, JsonField)| (m.0, field_text(m.1))))
}

/// The value of one output field.
#[derive(Clone, Debug)]
pub enum OutputValue {
    Value(RecordedValue),
    /// One object per span, each a list of members.
    Spans(Vec<Vec<(String, RecordedValue)>>),
}

pub open spec fn members_model(o: Seq<(String, RecordedValue)>) -> Seq<(Seq<char>, Scalar)> {
    o.map_values(|m: (String, RecordedValue)| (m.0@, m.1.scalar()))
}

impl OutputValue {
    pub open spec fn model(self) -> JsonField {
        match self {
            OutputValue::Value(v) => JsonField::Scalar(v.scalar()),
            OutputValue::Spans(os) => JsonField::Objects(
                os@.map_values(|o: Vec<(String, RecordedValue)>| members_model(o@)),
            ),
        }
    }
}

pub open spec fn fields_model(fields: Seq<(String, OutputValue)>) -> Seq<(Seq<char>, JsonField)> {
    fields.map_values(|m: (String, OutputValue)| (m.0@, m.1.model()))
}

pub proof fn lemma_joined_step(parts: Seq<Seq<char>>, sep: Seq<char>, i: int)
    requires
        0 <= i < parts.len(),
    ensures
        joined(parts.take(i + 1), sep) == joined(parts.take(i), sep) + (if i == 0 {
            Seq::<char>::empty()
        } else {
            sep
        }) + parts[i],
{
    assert(parts.take(i + 1).drop_last() == parts.take(i));
    if i == 0 {
        assert(joined(parts.take(0), sep) == Seq::<char>::empty());
        assert(Seq::<char>::empty() + Seq::<char>::empty() + parts[0] == parts[0]);
    }
}

/// Appends the decimal digits of `n`.
pub fn push_decimal(out: &mut String, n: u64)
    ensures
        final(out)@ == old(out)@ + decimal(n as nat),
    decreases n,
{
    if n >= 10 {
        push_decimal(out, n / 10);
    }
    let d = n % 10;
    let t = if d == 0 {
        "0"
    } else if d == 1 {
        "1"
    } else if d == 2 {
        "2"
    } else if d == 3 {
        "3"
    } else if d == 4 {
        "4"
    } else if d == 5 {
        "5"
    } else if d == 6 {
        "6"
    } else if d == 7 {
        "7"
    } else if d == 8 {
        "8"
    } else {
        "9"
    };
    out.append(t);
    proof {
        if n >= 10 {
            assert(old(out)@ + decimal(n as nat) == old(out)@ + decimal((n / 10) as nat) + digit_text(
                (n % 10) as int,
            ));
        }
    }
}

/// Appends the JSON text of a signed integer.
fn push_signed(out: &mut String, v: i64)
    ensures
        final(out)@ == old(out)@ + int_text(v as int),
{
    if v < 0 {
        out.append("-");
        let m: u64 = if v == i64::MIN {
            9223372036854775808u64
        } else {
            (-v) as u64
        };
        push_decimal(out, m);
        assert(old(out)@ + "-"@ + decimal(m as nat) == old(out)@ + ("-"@ + decimal(m as nat)));
    } else {
        push_decimal(out, v as u64);
    }
}

/// Appends the JSON text of a recorded value.
fn push_scalar(out: &mut String, v: &RecordedValue) -> (r: Result<(), serde_json::Error>)
    ensures
        r is Ok,
        final(out)@ == old(out)@ + scalar_text(v.scalar()),
{
    match v {
        RecordedValue::Unset => out.append("null"),
        RecordedValue::Null => out.append("null"),
        RecordedValue::Float(t) => out.append(t.as_str()),
        RecordedValue::I64(i) => push_signed(out, *i),
        RecordedValue::U64(u) => push_decimal(out, *u),
        RecordedValue::Bool(b) => {
            if *b {
                out.append("true")
            } else {
                out.append("false")
            }
        },
        RecordedValue::String(s) => {
            let q = match quote(s.as_str()) {
                Ok(q) => q,
                Err(e) => return Err(e),
            };
            out.append(q.as_str());
        },
    }
    Ok(())
}

/// Appends a quoted key and a colon.
fn push_key(out: &mut String, key: &String) -> (r: Result<(), serde_json::Error>)
    ensures
        r is Ok,
        final(out)@ == old(out)@ + json_quoted(key@) + ":"@,
{
    let q = match quote(key.as_str()) {
        Ok(q) => q,
        Err(e) => return Err(e),
    };
    out.append(q.as_str());
    out.append(":");
    Ok(())
}

/// Appends a JSON object whose members hold recorded values.
fn push_object(out: &mut String, members: &Vec<(String, RecordedValue)>) -> (r: Result<
    (),
    serde_json::Error,
>)
    ensures
        r is Ok,
        final(out)@ == old(out)@ + scalar_object_text(members_model(members@)),
{
    let ghost model = members_model(members@);
    let ghost pairs = model.map_values(|m: (Seq<char>, Scalar)| (m.0, scalar_text(m.1)));
    let ghost parts = pairs.map_values(|m: (Seq<char>, Seq<char>)| member_text(m.0, m.1));
    let ghost start = old(out)@ + "{"@;
    out.append("{");
    let mut i: usize = 0;
    while i < members.len()
        invariant
            i <= members.len(),
            model == members_model(members@),
            pairs == model.map_values(|m: (Seq<char>, Scalar)| (m.0, scalar_text(m.1))),
            parts == pairs.map_values(|m: (Seq<char>, Seq<char>)| member_text(m.0, m.1)),
            parts.len() == members.len(),
            out@ == start + comma_joined(parts.take(i as int)),
        decreases members.len() - i,
    {
        let ghost before = out@;
        if i > 0 {
            out.append(",");
        }
        push_key(out, &members[i].0)?;
        push_scalar(out, &members[i].1)?;
        proof {
            lemma_joined_step(parts, ","@, i as int);
            assert(parts[i as int] == json_quoted(members@[i as int].0@) + ":"@ + scalar_text(
                members@[i as int].1.scalar(),
            ));
            if i > 0 {
                assert(out@ == before + ","@ + parts[i as int]);
            } else {
                assert(out@ == before + Seq::<char>::empty() + parts[i as int]);
            }
        }
        i = i + 1;
    }
    out.append("}");
    assert(parts.take(members.len() as int) == parts);
    Ok(())
}

/// Appends the text of one output field's value.
fn push_field_value(out: &mut String, v: &OutputValue) -> (r: Result<(), serde_json::Error>)
    ensures
        r is Ok,
        final(out)@ == old(out)@ + field_text(v.model()),
{
    match v {
        OutputValue::Value(x) => push_scalar(out, x),
        OutputValue::Spans(os) => {
            let ghost parts = os@.map_values(
                |o: Vec<(String, RecordedValue)>| scalar_object_text(members_model(o@)),
            );
            let ghost start = old(out)@ + "["@;
            out.append("[");
            let mut i: usize = 0;
            while i < os.len()
                invariant
                    i <= os.len(),
                    parts == os@.map_values(
                        |o: Vec<(String, RecordedValue)>| scalar_object_text(members_model(o@)),
                    ),
                    out@ == start + comma_joined(parts.take(i as int)),
                decreases os.len() - i,
            {
                let ghost before = out@;
                if i > 0 {
                    out.append(",");
                }
                push_object(out, &os[i])?;
                proof {
                    lemma_joined_step(parts, ","@, i as int);
                    if i > 0 {
                        assert(out@ == before + ","@ + parts[i as int]);
                    } else {
                        assert(out@ == before + Seq::<char>::empty() + parts[i as int]);
                    }
                }
                i = i + 1;
            }
            out.append("]");
            assert(parts.take(os.len() as int) == parts);
            proof {
                let m = os@.map_values(|o: Vec<(String, RecordedValue)>| members_model(o@));
                assert(m.map_values(|o: Seq<(Seq<char>, Scalar)>| scalar_object_text(o)) == parts);
            }
            Ok(())
        },
    }
}

/// The JSON text of a whole record, fields in order.
pub fn render_record(fields: &Vec<(String, OutputValue)>) -> (r: Result<String, serde_json::Error>)
    ensures
        r is Ok,
        r matches Ok(s) ==> s@ == record_text(fields_model(fields@)),
{
    let ghost model = fields_model(fields@);
    let ghost pairs = model.map_values(|m: (Seq<char>, JsonField)| (m.0, field_text(m.1)));
    let ghost parts = pairs.map_values(|m: (Seq<char>, Seq<char>)| member_text(m.0, m.1));
    let mut out = String::new();
    out.append("{");
    let mut i: usize = 0;
    while i < fields.len()
        invariant
            i <= fields.len(),
            model == fields_model(fields@),
            pairs == model.map_values(|m: (Seq<char>, JsonField)| (m.0, field_text(m.1))),
            parts == pairs.map_values(|m: (Seq<char>, Seq<char>)| member_text(m.0, m.1)),
            parts.len() == fields.len(),
            out@ == "{"@ + comma_joined(parts.take(i as int)),
        decreases fields.len() - i,
    {
        let ghost before = out@;
        if i > 0 {
            out.append(",");
        }
        push_key(&mut out, &fields[i].0)?;
        push_field_value(&mut out, &fields[i].1)?;
        proof {
            lemma_joined_step(parts, ","@, i as int);
            if i > 0 {
                assert(out@ == before + ","@ + parts[i as int]);
            } else {
                assert(out@ == before + Seq::<char>::empty() + parts[i as int]);
            }
        }
        i = i + 1;
    }
    out.append("}");
    assert(parts.take(fields.len() as int) == parts);
    Ok(out)
}

} // verus!
