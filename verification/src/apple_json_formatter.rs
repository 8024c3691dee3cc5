use crate::json::{JsonModel, JsonNumber, JsonValue, NumberModel, items_view, members_view};
use crate::text::to_chars;
use vstd::prelude::*;
use vstd::string::StringExecFns;

verus! {

/// The character of the digit `d` in base sixteen, in lower case.
pub open spec fn hex_digit(d: int) -> char {
    if d < 10 {
        ((48 + d) as u8) as char
    } else {
        ((87 + d) as u8) as char
    }
}

/// The decimal digits of a natural number, without leading zeros.
pub open spec fn digits(n: nat) -> Seq<char>
    decreases n,
{
    if n < 10 {
        seq![((48 + n) as u8) as char]
    } else {
        digits(n / 10).push(((48 + n % 10) as u8) as char)
    }
}

/// An integer in decimal, with a minus sign when it is negative.
pub open spec fn decimal(n: int) -> Seq<char> {
    if n < 0 {
        seq!['-'] + digits((-n) as nat)
    } else {
        digits(n as nat)
    }
}

/// The control characters: the code points U+0000 to U+001F and U+007F to U+009F.
pub open spec fn is_control(c: char) -> bool {
    let n = c as u32;
    n <= 0x1F || (0x7F <= n <= 0x9F)
}

/// How one character stands inside a JSON string.
pub open spec fn escape_char(c: char) -> Seq<char> {
    if c == '"' {
        seq!['\\', '"']
    } else if c == '\\' {
        seq!['\\', '\\']
    } else if c == '\n' {
        seq!['\\', 'n']
    } else if c == '\r' {
        seq!['\\', 'r']
    } else if c == '\t' {
        seq!['\\', 't']
    } else if c == '\u{8}' {
        seq!['\\', 'b']
    } else if c == '\u{c}' {
        seq!['\\', 'f']
    } else if is_control(c) {
        seq!['\\', 'u', '0', '0', hex_digit((c as u32) as int / 16), hex_digit((c as u32) as int % 16)]
    } else {
        seq![c]
    }
}

/// A string with each of its characters escaped.
pub open spec fn escape(s: Seq<char>) -> Seq<char>
    decreases s.len(),
{
    if s.len() == 0 {
        Seq::empty()
    } else {
        escape(s.drop_last()) + escape_char(s.last())
    }
}

/// Two spaces for each level of nesting.
pub open spec fn indent(level: nat) -> Seq<char>
    decreases level,
{
    if level == 0 {
        Seq::empty()
    } else {
        indent((level - 1) as nat) + seq![' ', ' ']
    }
}

/// A JSON string in quotes.
pub open spec fn quoted(s: Seq<char>) -> Seq<char> {
    seq!['"'] + escape(s) + seq!['"']
}

/// A number as it is written.
pub open spec fn render_number(n: NumberModel) -> Seq<char> {
    match n {
        NumberModel::Integer(i) => decimal(i),
        NumberModel::Other(t) => t,
    }
}

/// The lines of array items that are followed by another item: each indented,
/// closed by a comma and a line break.
pub open spec fn render_items(items: Seq<JsonModel>, level: nat) -> Seq<char>
    decreases items,
{
    if items.len() == 0 {
        Seq::empty()
    } else {
        render_items(items.drop_last(), level) + indent(level) + render(items.last(), level)
            + seq![',', '\n']
    }
}

/// One member of an object: its name in quotes, a colon with a space on each side, its value.
pub open spec fn render_member(m: (Seq<char>, JsonModel), level: nat) -> Seq<char>
    decreases m,
{
    quoted(m.0) + seq![' ', ':', ' '] + render(m.1, level)
}

/// The lines of object members that are followed by another member.
pub open spec fn render_members(members: Seq<(Seq<char>, JsonModel)>, level: nat) -> Seq<char>
    decreases members,
{
    if members.len() == 0 {
        Seq::empty()
    } else {
        render_members(members.drop_last(), level) + indent(level) + render_member(
            members.last(),
            level,
        ) + seq![',', '\n']
    }
}

/// The text of a JSON value that stands at nesting depth `level`: two spaces
/// of indentation per level, one member or item per line, empty arrays and
/// objects on one line, members in the order in which the object holds them.
pub open spec fn render(value: JsonModel, level: nat) -> Seq<char>
    decreases value,
{
    match value {
        JsonModel::Null => seq!['n', 'u', 'l', 'l'],
        JsonModel::Bool(b) => if b {
            seq!['t', 'r', 'u', 'e']
        } else {
            seq!['f', 'a', 'l', 's', 'e']
        },
        JsonModel::Number(n) => render_number(n),
        JsonModel::String(s) => quoted(s),
        JsonModel::Array(items) => if items.len() == 0 {
            seq!['[', ']']
        } else {
            seq!['[', '\n'] + render_items(items.drop_last(), level + 1) + indent(level + 1)
                + render(items.last(), level + 1) + seq!['\n'] + indent(level) + seq![']']
        },
        JsonModel::Object(members) => if members.len() == 0 {
            seq!['{', '}']
        } else {
            seq!['{', '\n'] + render_members(members.drop_last(), level + 1) + indent(level + 1)
                + render_member(members.last(), level + 1) + seq!['\n'] + indent(level) + seq!['}']
        },
    }
}

fn push_hex_digit(out: &mut String, d: u8)
    requires
        d < 16,
    ensures
        final(out)@ == old(out)@.push(hex_digit(d as int)),
{
    if d < 10 {
        out.push((48 + d) as char);
    } else {
        out.push((87 + d) as char);
    }
}

fn push_digits(out: &mut String, n: u64)
    ensures
        final(out)@ == old(out)@ + digits(n as nat),
    decreases n,
{
    if n < 10 {
        out.push((48 + (n as u8)) as char);
        assert(out@ =~= old(out)@ + digits(n as nat));
    } else {
        push_digits(out, n / 10);
        out.push((48 + ((n % 10) as u8)) as char);
        assert(out@ =~= old(out)@ + digits(n as nat));
    }
}

fn push_decimal(out: &mut String, n: i64)
    ensures
        final(out)@ == old(out)@ + decimal(n as int),
{
    if n < 0 {
        out.push('-');
        let magnitude: u64 = ((-(n + 1)) as u64) + 1;
        push_digits(out, magnitude);
        assert(out@ =~= old(out)@ + decimal(n as int));
    } else {
        push_digits(out, n as u64);
    }
}

fn push_escaped_char(out: &mut String, c: char)
    ensures
        final(out)@ == old(out)@ + escape_char(c),
{
    let n: u32 = c as u32;
    if c == '"' {
        out.push('\\');
        out.push('"');
    } else if c == '\\' {
        out.push('\\');
        out.push('\\');
    } else if c == '\n' {
        out.push('\\');
        out.push('n');
    } else if c == '\r' {
        out.push('\\');
        out.push('r');
    } else if c == '\t' {
        out.push('\\');
        out.push('t');
    } else if c == '\u{8}' {
        out.push('\\');
        out.push('b');
    } else if c == '\u{c}' {
        out.push('\\');
        out.push('f');
    } else if n <= 0x1F || (0x7F <= n && n <= 0x9F) {
        out.push('\\');
        out.push('u');
        out.push('0');
        out.push('0');
        push_hex_digit(out, (n / 16) as u8);
        push_hex_digit(out, (n % 16) as u8);
    } else {
        out.push(c);
    }
    assert(out@ =~= old(out)@ + escape_char(c));
}

fn push_escaped(out: &mut String, s: &str)
    ensures
        final(out)@ == old(out)@ + escape(s@),
{
    let v = to_chars(s);
    let mut i: usize = 0;
    assert(out@ =~= old(out)@ + escape(v@.take(0)));
    while i < v.len()
        invariant
            v@ == s@,
            i <= v@.len(),
            out@ == old(out)@ + escape(v@.take(i as int)),
        decreases v@.len() - i,
    {
        push_escaped_char(out, v[i]);
        proof {
            let next = v@.take(i + 1);
            assert(next.drop_last() =~= v@.take(i as int));
            assert(next.last() == v@[i as int]);
            assert(out@ =~= old(out)@ + escape(next));
        }
        i += 1;
    }
    assert(v@.take(v@.len() as int) =~= v@);
}

fn push_quoted(out: &mut String, s: &str)
    ensures
        final(out)@ == old(out)@ + quoted(s@),
{
    out.push('"');
    push_escaped(out, s);
    out.push('"');
    assert(out@ =~= old(out)@ + quoted(s@));
}

/// A copy of the string in which quotes, backslashes and control characters are
/// escaped as JSON asks: the short forms for `"`, `\`, line feed, carriage
/// return, tab, backspace and form feed, `\u00XX` for the other control characters.
pub fn escape_string(s: &str) -> (r: String)
    ensures
        r@ == escape(s@),
{
    let mut r = String::new();
    push_escaped(&mut r, s);
    assert(r@ =~= escape(s@));
    r
}

/// Appends the indentation of a nesting level: two spaces per level.
pub fn write_indent(out: &mut String, level: usize)
    ensures
        final(out)@ == old(out)@ + indent(level as nat),
{
    let mut i: usize = 0;
    assert(out@ =~= old(out)@ + indent(0));
    while i < level
        invariant
            i <= level,
            out@ == old(out)@ + indent(i as nat),
        decreases level - i,
    {
        out.push(' ');
        out.push(' ');
        i += 1;
        assert(out@ =~= old(out)@ + indent(i as nat));
    }
}

fn write_number(out: &mut String, n: &JsonNumber)
    ensures
        final(out)@ == old(out)@ + render_number(n@),
{
    match n {
        JsonNumber::Integer(i) => push_decimal(out, *i),
        JsonNumber::Other(t) => out.append(t.as_str()),
    }
}

/// The indentation one level deeper than `pad`.
fn deeper(pad: &str, Ghost(level): Ghost<nat>) -> (inner: String)
    requires
        pad@ == indent(level),
    ensures
        inner@ == indent(level + 1),
{
    let mut inner = String::from_str(pad);
    inner.push(' ');
    inner.push(' ');
    assert(inner@ =~= indent(level + 1));
    inner
}

/// The model of the item at a position of a vector of JSON values.
pub open spec fn json_model_at(items: Seq<JsonValue>, i: int) -> JsonModel {
    items[i]@
}

fn write_array(out: &mut String, items: &Vec<JsonValue>, pad: &str, Ghost(level): Ghost<nat>)
    requires
        pad@ == indent(level),
        items@.len() > 0,
    ensures
        final(out)@ == old(out)@ + render(JsonModel::Array(items_view(items@)), level),
    decreases items@, 0nat,
{
    let ghost models = items_view(items@);
    let inner = deeper(pad, Ghost(level));
    out.push('[');
    out.push('\n');
    let last = items.len() - 1;
    let mut i: usize = 0;
    assert(models.drop_last().take(0) =~= Seq::empty());
    assert(out@ =~= old(out)@ + seq!['[', '\n'] + render_items(
        models.drop_last().take(0),
        level + 1,
    ));
    while i < last
        invariant
            models == items_view(items@),
            last == items@.len() - 1,
            inner@ == indent(level + 1),
            i <= last,
            out@ == old(out)@ + seq!['[', '\n'] + render_items(
                models.drop_last().take(i as int),
                level + 1,
            ),
        decreases last - i,
    {
        let ghost before = out@;
        out.append(inner.as_str());
        write_value(out, &items[i], inner.as_str(), Ghost(level + 1));
        out.push(',');
        out.push('\n');
        proof {
            let next = models.drop_last().take(i + 1);
            assert(next.drop_last() =~= models.drop_last().take(i as int));
            assert(next.last() == json_model_at(items@, i as int));
            assert(out@ =~= before + indent(level + 1) + render(next.last(), level + 1) + seq![
                ',',
                '\n',
            ]);
            assert(out@ =~= old(out)@ + seq!['[', '\n'] + render_items(next, level + 1));
        }
        i += 1;
    }
    assert(models.drop_last().take(last as int) =~= models.drop_last());
    let ghost before = out@;
    out.append(inner.as_str());
    write_value(out, &items[last], inner.as_str(), Ghost(level + 1));
    out.push('\n');
    out.append(pad);
    out.push(']');
    proof {
        assert(models.last() == json_model_at(items@, last as int));
        assert(out@ =~= before + indent(level + 1) + render(models.last(), level + 1) + seq![
            '\n',
        ] + indent(level) + seq![']']);
        assert(out@ =~= old(out)@ + render(JsonModel::Array(models), level));
    }
}

fn write_object(
    out: &mut String,
    members: &Vec<(String, JsonValue)>,
    pad: &str,
    Ghost(level): Ghost<nat>,
)
    requires
        pad@ == indent(level),
        members@.len() > 0,
    ensures
        final(out)@ == old(out)@ + render(JsonModel::Object(members_view(members@)), level),
    decreases members@, 0nat,
{
    let ghost models = members_view(members@);
    let inner = deeper(pad, Ghost(level));
    out.push('{');
    out.push('\n');
    let last = members.len() - 1;
    let mut i: usize = 0;
    assert(models.drop_last().take(0) =~= Seq::empty());
    assert(out@ =~= old(out)@ + seq!['{', '\n'] + render_members(
        models.drop_last().take(0),
        level + 1,
    ));
    while i < last
        invariant
            models == members_view(members@),
            last == members@.len() - 1,
            inner@ == indent(level + 1),
            i <= last,
            out@ == old(out)@ + seq!['{', '\n'] + render_members(
                models.drop_last().take(i as int),
                level + 1,
            ),
        decreases last - i,
    {
        let ghost before = out@;
        out.append(inner.as_str());
        write_member(out, &members[i], inner.as_str(), Ghost(level + 1));
        out.push(',');
        out.push('\n');
        proof {
            let next = models.drop_last().take(i + 1);
            assert(next.drop_last() =~= models.drop_last().take(i as int));
            assert(next.last() == (members@[i as int].0@, members@[i as int].1@));
            assert(out@ =~= before + indent(level + 1) + render_member(next.last(), level + 1)
                + seq![',', '\n']);
            assert(out@ =~= old(out)@ + seq!['{', '\n'] + render_members(next, level + 1));
        }
        i += 1;
    }
    assert(models.drop_last().take(last as int) =~= models.drop_last());
    let ghost before = out@;
    out.append(inner.as_str());
    write_member(out, &members[last], inner.as_str(), Ghost(level + 1));
    out.push('\n');
    out.append(pad);
    out.push('}');
    proof {
        assert(models.last() == (members@[last as int].0@, members@[last as int].1@));
        assert(out@ =~= before + indent(level + 1) + render_member(models.last(), level + 1)
            + seq!['\n'] + indent(level) + seq!['}']);
        assert(out@ =~= old(out)@ + render(JsonModel::Object(models), level));
    }
}

fn write_member(out: &mut String, m: &(String, JsonValue), pad: &str, Ghost(level): Ghost<nat>)
    requires
        pad@ == indent(level),
    ensures
        final(out)@ == old(out)@ + render_member((m.0@, m.1@), level),
    decreases *m, 1nat,
{
    push_quoted(out, m.0.as_str());
    out.push(' ');
    out.push(':');
    out.push(' ');
    write_value(out, &m.1, pad, Ghost(level));
    assert(out@ =~= old(out)@ + render_member((m.0@, m.1@), level));
}

fn write_value(out: &mut String, value: &JsonValue, pad: &str, Ghost(level): Ghost<nat>)
    requires
        pad@ == indent(level),
    ensures
        final(out)@ == old(out)@ + render(value@, level),
    decreases *value, 1nat,
{
    match value {
        JsonValue::Null => {
            out.push('n');
            out.push('u');
            out.push('l');
            out.push('l');
            assert(out@ =~= old(out)@ + render(value@, level));
        },
        JsonValue::Bool(b) => {
            if *b {
                out.push('t');
                out.push('r');
                out.push('u');
                out.push('e');
            } else {
                out.push('f');
                out.push('a');
                out.push('l');
                out.push('s');
                out.push('e');
            }
            assert(out@ =~= old(out)@ + render(value@, level));
        },
        JsonValue::Number(n) => write_number(out, n),
        JsonValue::String(s) => push_quoted(out, s.as_str()),
        JsonValue::Array(items) => {
            if items.len() == 0 {
                out.push('[');
                out.push(']');
                assert(out@ =~= old(out)@ + render(value@, level));
            } else {
                write_array(out, items, pad, Ghost(level));
            }
        },
        JsonValue::Object(members) => {
            if members.len() == 0 {
                out.push('{');
                out.push('}');
                assert(out@ =~= old(out)@ + render(value@, level));
            } else {
                write_object(out, members, pad, Ghost(level));
            }
        },
    }
}

/// The text of a JSON value in the layout of a string catalog: see [`render`].
pub fn to_apple_format(value: &JsonValue) -> (text: String)
    ensures
        text@ == render(value@, 0),
{
    let mut text = String::new();
    let pad = String::new();
    write_value(&mut text, value, pad.as_str(), Ghost(0));
    assert(text@ =~= render(value@, 0));
    text
}

} // verus!
