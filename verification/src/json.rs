//! JSON text: string literals, numbers and flat objects.

use vstd::prelude::*;
use vstd::string::StringExecFns;

verus! {

/// `String::push`: appends one character to the end of the string and changes nothing else.
pub assume_specification[ String::push ](string: &mut String, ch: char)
    ensures
        final(string)@ == old(string)@.push(ch),
;

/// The Unicode control characters (general category `Cc`).
pub open spec fn control(c: char) -> bool {
    (c as u32) < 0x20 || 0x7f <= (c as u32) <= 0x9f
}

/// The lower-case hexadecimal digit for a value below sixteen.
pub open spec fn hex_digit(value: nat) -> char {
    if value < 10 {
        (0x30 + value) as char
    } else {
        (0x57 + value) as char
    }
}

/// How one character stands inside a JSON string literal.
pub open spec fn escape(c: char) -> Seq<char> {
    if c == '"' {
        seq!['\\', '"']
    } else if c == '\\' {
        seq!['\\', '\\']
    } else if c == '\n' {
        seq!['\\', 'n']
    } else if c == '\r' {
        seq!['\\', 'r']
    } else if c == '\t' {
        seq!['\\', 't']
    } else if control(c) {
        seq![
            '\\',
            'u',
            hex_digit(c as nat / 0x1000),
            hex_digit(c as nat / 0x100 % 0x10),
            hex_digit(c as nat / 0x10 % 0x10),
            hex_digit(c as nat % 0x10),
        ]
    } else {
        seq![c]
    }
}

/// The characters of `text`, each escaped, in order.
pub open spec fn escaped(text: Seq<char>) -> Seq<char>
    decreases text.len(),
{
    if text.len() == 0 {
        Seq::empty()
    } else {
        escape(text[0]) + escaped(text.drop_first())
    }
}

/// The JSON string literal that denotes `text`.
pub open spec fn json_string(text: Seq<char>) -> Seq<char> {
    seq!['"'] + escaped(text) + seq!['"']
}

/// The decimal digits of `value`, without leading zeros.
pub open spec fn decimal(value: nat) -> Seq<char>
    decreases value,
{
    if value < 10 {
        seq![hex_digit(value)]
    } else {
        decimal(value / 10).push(hex_digit(value % 10))
    }
}

/// A JSON value as it occurs in an event.
pub enum Value {
    Text(Seq<char>),
    Number(nat),
    Flag(bool),
    Null,
}

/// The JSON text of one value.
pub open spec fn render_value(value: Value) -> Seq<char> {
    match value {
        Value::Text(text) => json_string(text),
        Value::Number(number) => decimal(number),
        Value::Flag(true) => seq!['t', 'r', 'u', 'e'],
        Value::Flag(false) => seq!['f', 'a', 'l', 's', 'e'],
        Value::Null => seq!['n', 'u', 'l', 'l'],
    }
}

/// The JSON text of one member of an object: its name, a colon and its value.
pub open spec fn render_member(member: (Seq<char>, Value)) -> Seq<char> {
    json_string(member.0) + seq![':'] + render_value(member.1)
}

/// The members of an object, separated by commas.
pub open spec fn render_members(members: Seq<(Seq<char>, Value)>) -> Seq<char>
    decreases members.len(),
{
    if members.len() == 0 {
        Seq::empty()
    } else if members.len() == 1 {
        render_member(members[0])
    } else {
        render_members(members.drop_last()) + seq![','] + render_member(members.last())
    }
}

/// The JSON text of an object with these members in this order, without white space.
pub open spec fn render_object(members: Seq<(Seq<char>, Value)>) -> Seq<char> {
    seq!['{'] + render_members(members) + seq!['}']
}

/// Tells the Unicode control characters apart.
pub fn is_control(c: char) -> (result: bool)
    ensures
        result == control(c),
{
    let code: u32 = c as u32;
    code < 0x20 || (0x7f <= code && code <= 0x9f)
}

/// The lower-case hexadecimal digit for `value`.
fn hex_char(value: u32) -> (digit: char)
    requires
        value < 0x10,
    ensures
        digit == hex_digit(value as nat),
{
    let code: u8 = value as u8;
    if code < 10 {
        (0x30 + code) as char
    } else {
        (0x57 + code) as char
    }
}

/// Append a JSON string literal for `text` to `out`.
///
/// Paths and messages come from the operating system and may contain control characters, so they
/// are escaped rather than passed through.
pub fn push_json_string(out: &mut String, text: &str)
    ensures
        final(out)@ == old(out)@ + json_string(text@),
{
    out.push('"');
    assert(text@.skip(0) =~= text@);
    for character in it: text.chars()
        invariant
            it.seq() == text@,
            out@ + escaped(text@.skip(it.index() as int)) =~= old(out)@ + seq!['"'] + escaped(text@),
    {
        let ghost rest = text@.skip(it.index() as int);
        assert(rest[0] == character);
        assert(rest.drop_first() =~= text@.skip(it.index() as int + 1));
        push_escaped(out, character);
    }
    assert(escaped(text@.skip(text@.len() as int)) =~= Seq::empty());
    out.push('"');
}

/// Append `character` as it stands inside a JSON string literal.
fn push_escaped(out: &mut String, character: char)
    ensures
        final(out)@ == old(out)@ + escape(character),
{
    if character == '"' {
        out.push('\\');
        out.push('"');
    } else if character == '\\' {
        out.push('\\');
        out.push('\\');
    } else if character == '\n' {
        out.push('\\');
        out.push('n');
    } else if character == '\r' {
        out.push('\\');
        out.push('r');
    } else if character == '\t' {
        out.push('\\');
        out.push('t');
    } else if is_control(character) {
        let code: u32 = character as u32;
        out.push('\\');
        out.push('u');
        out.push(hex_char(code / 0x1000));
        out.push(hex_char(code / 0x100 % 0x10));
        out.push(hex_char(code / 0x10 % 0x10));
        out.push(hex_char(code % 0x10));
    } else {
        out.push(character);
    }
    assert(out@ =~= old(out)@ + escape(character));
}

/// Append `value` in decimal to `out`.
pub fn push_number(out: &mut String, value: u64)
    ensures
        final(out)@ == old(out)@ + decimal(value as nat),
    decreases value,
{
    if value >= 10 {
        push_number(out, value / 10);
    }
    out.push(hex_char((value % 10) as u32));
    assert(out@ =~= old(out)@ + decimal(value as nat));
}

/// A JSON object under construction.
pub(crate) struct ObjectText {
    text: String,
    empty: bool,
    members: Ghost<Seq<(Seq<char>, Value)>>,
}

impl ObjectText {
    /// The members added so far.
    pub(crate) closed spec fn members(self) -> Seq<(Seq<char>, Value)> {
        self.members@
    }

    /// The text is an opening brace followed by the members added so far.
    pub(crate) closed spec fn wf(self) -> bool {
        &&& self.text@ == seq!['{'] + render_members(self.members@)
        &&& self.empty == (self.members@.len() == 0)
    }

    /// An object without members.
    pub(crate) fn new() -> (object: ObjectText)
        ensures
            object.wf(),
            object.members() == Seq::<(Seq<char>, Value)>::empty(),
    {
        let mut text = String::new();
        text.push('{');
        let object = ObjectText { text, empty: true, members: Ghost(Seq::empty()) };
        assert(object.text@ =~= seq!['{'] + render_members(object.members@));
        object
    }

    /// Append what precedes the value of the member `name`.
    fn push_name(&mut self, name: &str)
        requires
            old(self).wf(),
        ensures
            !final(self).empty,
            final(self).members@ == old(self).members@,
            final(self).text@ == old(self).text@ + (if old(self).members@.len() == 0 {
                Seq::empty()
            } else {
                seq![',']
            }) + json_string(name@) + seq![':'],
    {
        if !self.empty {
            self.text.push(',');
        }
        self.empty = false;
        push_json_string(&mut self.text, name);
        self.text.push(':');
        assert(self.text@ =~= old(self).text@ + (if old(self).members@.len() == 0 {
            Seq::empty()
        } else {
            seq![',']
        }) + json_string(name@) + seq![':']);
    }

    /// Add a member with a text value.
    pub(crate) fn text(&mut self, name: &str, value: &str)
        requires
            old(self).wf(),
        ensures
            final(self).wf(),
            final(self).members() == old(self).members().push((name@, Value::Text(value@))),
    {
        self.push_name(name);
        push_json_string(&mut self.text, value);
        proof {
            self.members@ = self.members@.push((name@, Value::Text(value@)));
        }
        assert(self.members@.drop_last() =~= old(self).members@);
        assert(self.text@ =~= seq!['{'] + render_members(self.members@));
    }

    /// Add a member with a number.
    pub(crate) fn number(&mut self, name: &str, value: u64)
        requires
            old(self).wf(),
        ensures
            final(self).wf(),
            final(self).members() == old(self).members().push((name@, Value::Number(value as nat))),
    {
        self.push_name(name);
        push_number(&mut self.text, value);
        proof {
            self.members@ = self.members@.push((name@, Value::Number(value as nat)));
        }
        assert(self.members@.drop_last() =~= old(self).members@);
        assert(self.text@ =~= seq!['{'] + render_members(self.members@));
    }

    /// Add a member that is `true` or `false`.
    pub(crate) fn flag(&mut self, name: &str, value: bool)
        requires
            old(self).wf(),
        ensures
            final(self).wf(),
            final(self).members() == old(self).members().push((name@, Value::Flag(value))),
    {
        self.push_name(name);
        proof {
            reveal_strlit("true");
            reveal_strlit("false");
        }
        self.text.append(if value { "true" } else { "false" });
        assert("true"@ =~= seq!['t', 'r', 'u', 'e']);
        assert("false"@ =~= seq!['f', 'a', 'l', 's', 'e']);
        proof {
            self.members@ = self.members@.push((name@, Value::Flag(value)));
        }
        assert(self.members@.drop_last() =~= old(self).members@);
        assert(self.text@ =~= seq!['{'] + render_members(self.members@));
    }

    /// Add a member that is `null`.
    pub(crate) fn null(&mut self, name: &str)
        requires
            old(self).wf(),
        ensures
            final(self).wf(),
            final(self).members() == old(self).members().push((name@, Value::Null)),
    {
        self.push_name(name);
        proof {
            reveal_strlit("null");
        }
        self.text.append("null");
        assert("null"@ =~= seq!['n', 'u', 'l', 'l']);
        proof {
            self.members@ = self.members@.push((name@, Value::Null));
        }
        assert(self.members@.drop_last() =~= old(self).members@);
        assert(self.text@ =~= seq!['{'] + render_members(self.members@));
    }

    /// Add a member with a text value, or `null` where there is none.
    pub(crate) fn text_or_null(&mut self, name: &str, value: Option<&str>)
        requires
            old(self).wf(),
        ensures
            final(self).wf(),
            final(self).members() == old(self).members().push(
                (
                    name@,
                    match value {
                        Some(text) => Value::Text(text@),
                        None => Value::Null,
                    },
                ),
            ),
    {
        match value {
            Some(text) => self.text(name, text),
            None => self.null(name),
        }
    }

    /// Close the object and hand out its text.
    pub(crate) fn finish(self) -> (text: String)
        requires
            self.wf(),
        ensures
            text@ == render_object(self.members()),
    {
        let mut text = self.text;
        text.push('}');
        assert(text@ =~= render_object(self.members@));
        text
    }
}

} // verus!
