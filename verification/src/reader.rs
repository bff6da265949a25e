//! What a consumer reads back from the JSON text of an event.
//!
//! The spec functions here read a JSON object whose members are texts, numbers, flags and `null`,
//! the way a JSON reader does; the proof functions relate them to the text that this library
//! writes.

use crate::json;
use crate::json::Value;
use vstd::prelude::*;

verus! {

/// The value of a hexadecimal digit of either case.
pub open spec fn hex_value(c: char) -> Option<nat> {
    if '0' <= c && c <= '9' {
        Some((c as nat - 0x30) as nat)
    } else if 'a' <= c && c <= 'f' {
        Some((c as nat - 0x57) as nat)
    } else if 'A' <= c && c <= 'F' {
        Some((c as nat - 0x37) as nat)
    } else {
        None
    }
}

/// Reads one character of a string literal, and says how many characters of text denote it.
///
/// An escape that denotes half of a surrogate pair is not read.
pub open spec fn read_char(text: Seq<char>) -> Option<(char, nat)> {
    if text.len() == 0 || text[0] == '"' || (text[0] as u32) < 0x20 {
        None
    } else if text[0] != '\\' {
        Some((text[0], 1))
    } else if text.len() < 2 {
        None
    } else if text[1] == '"' || text[1] == '\\' || text[1] == '/' {
        Some((text[1], 2))
    } else if text[1] == 'b' {
        Some(('\x08', 2))
    } else if text[1] == 'f' {
        Some(('\x0c', 2))
    } else if text[1] == 'n' {
        Some(('\n', 2))
    } else if text[1] == 'r' {
        Some(('\r', 2))
    } else if text[1] == 't' {
        Some(('\t', 2))
    } else if text[1] == 'u' && text.len() >= 6 {
        match (hex_value(text[2]), hex_value(text[3]), hex_value(text[4]), hex_value(text[5])) {
            (Some(a), Some(b), Some(c), Some(d)) => {
                let code = 0x1000 * a + 0x100 * b + 0x10 * c + d;
                if 0xd800 <= code <= 0xdfff {
                    None
                } else {
                    Some((code as char, 6))
                }
            },
            _ => None,
        }
    } else {
        None
    }
}

/// Reads a string literal from behind its opening quote: what it denotes, and the text behind it.
pub open spec fn read_text(text: Seq<char>) -> Option<(Seq<char>, Seq<char>)>
    decreases text.len(),
{
    if text.len() > 0 && text[0] == '"' {
        Some((Seq::empty(), text.skip(1)))
    } else {
        match read_char(text) {
            Some((c, used)) => match read_text(text.skip(used as int)) {
                Some((more, rest)) => Some((seq![c] + more, rest)),
                None => None,
            },
            None => None,
        }
    }
}

pub open spec fn is_digit(c: char) -> bool {
    '0' <= c && c <= '9'
}

/// How many digits `text` begins with.
pub open spec fn leading_digits(text: Seq<char>) -> nat
    decreases text.len(),
{
    if text.len() > 0 && is_digit(text[0]) {
        1 + leading_digits(text.drop_first())
    } else {
        0
    }
}

/// The number that decimal digits denote.
pub open spec fn digits_value(digits: Seq<char>) -> nat
    decreases digits.len(),
{
    if digits.len() == 0 {
        0
    } else {
        10 * digits_value(digits.drop_last()) + (digits.last() as nat - 0x30) as nat
    }
}

/// Reads a number, which has no superfluous leading zero, and hands back the text behind it.
pub open spec fn read_number(text: Seq<char>) -> Option<(nat, Seq<char>)> {
    let count = leading_digits(text) as int;
    if count == 0 || (count > 1 && text[0] == '0') {
        None
    } else {
        Some((digits_value(text.take(count)), text.skip(count)))
    }
}

/// Reads one value, and hands back the text behind it.
pub open spec fn read_value(text: Seq<char>) -> Option<(Value, Seq<char>)> {
    if text.len() > 0 && text[0] == '"' {
        match read_text(text.skip(1)) {
            Some((content, rest)) => Some((Value::Text(content), rest)),
            None => None,
        }
    } else if text.len() >= 4 && text.take(4) == seq!['t', 'r', 'u', 'e'] {
        Some((Value::Flag(true), text.skip(4)))
    } else if text.len() >= 5 && text.take(5) == seq!['f', 'a', 'l', 's', 'e'] {
        Some((Value::Flag(false), text.skip(5)))
    } else if text.len() >= 4 && text.take(4) == seq!['n', 'u', 'l', 'l'] {
        Some((Value::Null, text.skip(4)))
    } else {
        match read_number(text) {
            Some((number, rest)) => Some((Value::Number(number), rest)),
            None => None,
        }
    }
}

/// Reads a name, a colon and a value, and hands back the text behind them.
pub open spec fn read_member(text: Seq<char>) -> Option<((Seq<char>, Value), Seq<char>)> {
    if text.len() == 0 || text[0] != '"' {
        None
    } else {
        match read_text(text.skip(1)) {
            Some((name, rest)) => if rest.len() == 0 || rest[0] != ':' {
                None
            } else {
                match read_value(rest.skip(1)) {
                    Some((value, rest)) => Some(((name, value), rest)),
                    None => None,
                }
            },
            None => None,
        }
    }
}

/// Reads members separated by commas up to the closing brace, behind which nothing follows.
pub open spec fn read_members(text: Seq<char>) -> Option<Seq<(Seq<char>, Value)>>
    decreases text.len(),
{
    match read_member(text) {
        Some((member, rest)) => if rest == seq!['}'] {
            Some(seq![member])
        } else if rest.len() > 0 && rest[0] == ',' {
            proof {
                lemma_member_takes_text(text);
            }
            match read_members(rest.skip(1)) {
                Some(more) => Some(seq![member] + more),
                None => None,
            }
        } else {
            None
        },
        None => None,
    }
}

/// Reads one whole object: its members in order, or nothing where the text is no such object.
pub open spec fn read_object(text: Seq<char>) -> Option<Seq<(Seq<char>, Value)>> {
    if text.len() < 2 || text[0] != '{' {
        None
    } else if text == seq!['{', '}'] {
        Some(Seq::empty())
    } else {
        read_members(text.skip(1))
    }
}

proof fn lemma_text_takes_text(text: Seq<char>)
    ensures
        read_text(text) matches Some((_, rest)) ==> rest.len() < text.len(),
    decreases text.len(),
{
    if !(text.len() > 0 && text[0] == '"') {
        if let Some((_, used)) = read_char(text) {
            lemma_text_takes_text(text.skip(used as int));
        }
    }
}

proof fn lemma_leading_digits_bound(text: Seq<char>)
    ensures
        leading_digits(text) <= text.len(),
    decreases text.len(),
{
    if text.len() > 0 && is_digit(text[0]) {
        lemma_leading_digits_bound(text.drop_first());
    }
}

/// Reading a member leaves less text than there was.
pub proof fn lemma_member_takes_text(text: Seq<char>)
    ensures
        read_member(text) matches Some((_, rest)) ==> rest.len() < text.len(),
{
    if text.len() > 0 && text[0] == '"' {
        lemma_text_takes_text(text.skip(1));
        if let Some((_, rest)) = read_text(text.skip(1)) {
            if rest.len() > 0 {
                lemma_leading_digits_bound(rest.skip(1));
                if rest.len() > 1 {
                    lemma_text_takes_text(rest.skip(1).skip(1));
                }
            }
        }
    }
}

proof fn lemma_read_escape(c: char, rest: Seq<char>)
    ensures
        read_char(json::escape(c) + rest) == Some((c, json::escape(c).len())),
{
    let text = json::escape(c) + rest;
    if json::control(c) && c != '\n' && c != '\r' && c != '\t' {
        assert(text[2] == json::hex_digit(c as nat / 0x1000));
        assert(text[3] == json::hex_digit(c as nat / 0x100 % 0x10));
        assert(text[4] == json::hex_digit(c as nat / 0x10 % 0x10));
        assert(text[5] == json::hex_digit(c as nat % 0x10));
    }
}

/// The text behind the opening quote of a literal reads back as what the literal was made for,
/// whatever follows the literal.
proof fn lemma_read_escaped(content: Seq<char>, rest: Seq<char>)
    ensures
        read_text(json::escaped(content) + seq!['"'] + rest) == Some((content, rest)),
    decreases content.len(),
{
    let text = json::escaped(content) + seq!['"'] + rest;
    if content.len() == 0 {
        assert(text.skip(1) =~= rest);
        assert(content =~= Seq::empty());
    } else {
        let more = json::escaped(content.drop_first()) + seq!['"'] + rest;
        assert(text =~= json::escape(content[0]) + more);
        lemma_read_escape(content[0], more);
        assert(text.skip(json::escape(content[0]).len() as int) =~= more);
        lemma_read_escaped(content.drop_first(), rest);
        assert(seq![content[0]] + content.drop_first() =~= content);
    }
}

/// A string literal denotes exactly the text that it was written for: nothing is lost in escaping.
pub proof fn law_string_reads_back(content: Seq<char>)
    ensures
        read_value(json::json_string(content)) == Some((Value::Text(content), Seq::<char>::empty())),
{
    let rest = Seq::<char>::empty();
    lemma_read_escaped(content, rest);
    assert(json::json_string(content).skip(1) =~= json::escaped(content) + seq!['"'] + rest);
}

/// Different texts have different string literals.
pub proof fn law_string_is_injective(a: Seq<char>, b: Seq<char>)
    requires
        json::json_string(a) == json::json_string(b),
    ensures
        a == b,
{
    law_string_reads_back(a);
    law_string_reads_back(b);
}

proof fn lemma_decimal(value: nat)
    ensures
        json::decimal(value).len() > 0,
        forall|i: int| 0 <= i < json::decimal(value).len() ==> is_digit(#[trigger] json::decimal(value)[i]),
        digits_value(json::decimal(value)) == value,
        value > 0 ==> json::decimal(value)[0] != '0',
        value < 10 ==> json::decimal(value).len() == 1,
    decreases value,
{
    if value < 10 {
        reveal_with_fuel(digits_value, 2);
        assert(json::decimal(value).drop_last() =~= Seq::empty());
    } else {
        lemma_decimal(value / 10);
        assert(json::decimal(value).drop_last() =~= json::decimal(value / 10));
    }
}

proof fn lemma_leading_digits(digits: Seq<char>, rest: Seq<char>)
    requires
        forall|i: int| 0 <= i < digits.len() ==> is_digit(#[trigger] digits[i]),
        rest.len() == 0 || !is_digit(rest[0]),
    ensures
        leading_digits(digits + rest) == digits.len(),
    decreases digits.len(),
{
    if digits.len() == 0 {
        assert(digits + rest =~= rest);
    } else {
        lemma_leading_digits(digits.drop_first(), rest);
        assert((digits + rest).drop_first() =~= digits.drop_first() + rest);
    }
}

proof fn lemma_read_number(number: nat, rest: Seq<char>)
    requires
        rest.len() == 0 || !is_digit(rest[0]),
    ensures
        read_value(json::decimal(number) + rest) == Some((Value::Number(number), rest)),
{
    let digits = json::decimal(number);
    let text = digits + rest;
    lemma_decimal(number);
    lemma_leading_digits(digits, rest);
    assert(is_digit(digits[0]));
    assert(text[0] == digits[0]);
    assert(text.take(digits.len() as int) =~= digits);
    assert(text.skip(digits.len() as int) =~= rest);
    if text.len() >= 4 {
        let front = text.take(4);
        assert(front[0] == text[0]);
        assert(seq!['t', 'r', 'u', 'e'][0] == 't');
        assert(seq!['n', 'u', 'l', 'l'][0] == 'n');
    }
    if text.len() >= 5 {
        let front = text.take(5);
        assert(front[0] == text[0]);
        assert(seq!['f', 'a', 'l', 's', 'e'][0] == 'f');
    }
}

/// A value reads back where no digit follows it.
proof fn lemma_read_value(value: Value, rest: Seq<char>)
    requires
        rest.len() == 0 || !is_digit(rest[0]),
    ensures
        read_value(json::render_value(value) + rest) == Some((value, rest)),
{
    let text = json::render_value(value) + rest;
    match value {
        Value::Text(content) => {
            lemma_read_escaped(content, rest);
            assert(text.skip(1) =~= json::escaped(content) + seq!['"'] + rest);
        },
        Value::Number(number) => {
            lemma_read_number(number, rest);
        },
        Value::Flag(true) => {
            assert(text.take(4) =~= seq!['t', 'r', 'u', 'e']);
            assert(text.skip(4) =~= rest);
        },
        Value::Flag(false) => {
            assert(text.take(4)[0] == 'f');
            assert(seq!['t', 'r', 'u', 'e'][0] == 't');
            assert(text.take(5) =~= seq!['f', 'a', 'l', 's', 'e']);
            assert(text.skip(5) =~= rest);
        },
        Value::Null => {
            assert(text.take(4)[0] == 'n');
            assert(seq!['t', 'r', 'u', 'e'][0] == 't');
            if text.len() >= 5 {
                assert(text.take(5)[0] == 'n');
                assert(seq!['f', 'a', 'l', 's', 'e'][0] == 'f');
            }
            assert(text.take(4) =~= seq!['n', 'u', 'l', 'l']);
            assert(text.skip(4) =~= rest);
        },
    }
}

proof fn lemma_read_member(member: (Seq<char>, Value), rest: Seq<char>)
    requires
        rest.len() == 0 || !is_digit(rest[0]),
    ensures
        read_member(json::render_member(member) + rest) == Some((member, rest)),
{
    let text = json::render_member(member) + rest;
    let behind_name = seq![':'] + json::render_value(member.1) + rest;
    lemma_read_escaped(member.0, behind_name);
    assert(text.skip(1) =~= json::escaped(member.0) + seq!['"'] + behind_name);
    lemma_read_value(member.1, rest);
    assert(behind_name.skip(1) =~= json::render_value(member.1) + rest);
}

/// The first member stands in front of the others.
proof fn lemma_members_from_front(members: Seq<(Seq<char>, Value)>)
    requires
        members.len() >= 2,
    ensures
        json::render_members(members) == json::render_member(members[0]) + seq![','] + json::render_members(
            members.drop_first(),
        ),
    decreases members.len(),
{
    if members.len() == 2 {
        reveal_with_fuel(json::render_members, 2);
        assert(members.drop_last()[0] == members[0]);
        assert(members.drop_first()[0] == members[1]);
    } else {
        lemma_members_from_front(members.drop_last());
        assert(members.drop_last().drop_first() =~= members.drop_first().drop_last());
        assert(members.drop_first().last() == members.last());
        assert(json::render_members(members) =~= json::render_member(members[0]) + seq![','] + json::render_members(
            members.drop_first(),
        ));
    }
}

proof fn lemma_read_members(members: Seq<(Seq<char>, Value)>)
    requires
        members.len() > 0,
    ensures
        read_members(json::render_members(members) + seq!['}']) == Some(members),
    decreases members.len(),
{
    let text = json::render_members(members) + seq!['}'];
    if members.len() == 1 {
        lemma_read_member(members[0], seq!['}']);
        assert(seq![members[0]] =~= members);
    } else {
        let more = json::render_members(members.drop_first()) + seq!['}'];
        let rest = seq![','] + more;
        lemma_members_from_front(members);
        assert(text =~= json::render_member(members[0]) + rest);
        lemma_read_member(members[0], rest);
        assert(rest[0] == ',' && seq!['}'][0] == '}');
        assert(rest.skip(1) =~= more);
        lemma_read_members(members.drop_first());
        assert(seq![members[0]] + members.drop_first() =~= members);
    }
}

/// Every object that is written is one JSON object, and a reader gets back exactly the members that
/// went in, in their order.
pub proof fn law_object_reads_back(members: Seq<(Seq<char>, Value)>)
    ensures
        read_object(json::render_object(members)) == Some(members),
{
    let text = json::render_object(members);
    if members.len() == 0 {
        assert(text =~= seq!['{', '}']);
        assert(members =~= Seq::empty());
    } else {
        assert(text.skip(1) =~= json::render_members(members) + seq!['}']);
        lemma_read_members(members);
        assert(json::render_members(members).len() > 0) by {
            if members.len() > 1 {
                lemma_members_from_front(members);
            }
        }
        assert(text.len() != 2 || text != seq!['{', '}']);
    }
}

/// No character of `text` is a control character.
pub open spec fn without_control(text: Seq<char>) -> bool {
    forall|i: int| 0 <= i < text.len() ==> !json::control(#[trigger] text[i])
}

proof fn lemma_concat_without_control(a: Seq<char>, b: Seq<char>)
    requires
        without_control(a),
        without_control(b),
    ensures
        without_control(a + b),
{
}

proof fn lemma_escape_without_control(c: char)
    ensures
        without_control(json::escape(c)),
{
    assert forall|digit: nat| digit < 0x10 implies !json::control(
        #[trigger] json::hex_digit(digit),
    ) by {}
    let text = json::escape(c);
    assert forall|i: int| 0 <= i < text.len() implies !json::control(#[trigger] text[i]) by {
        if text.len() == 6 {
            assert(text[2] == json::hex_digit(c as nat / 0x1000));
            assert(text[3] == json::hex_digit(c as nat / 0x100 % 0x10));
            assert(text[4] == json::hex_digit(c as nat / 0x10 % 0x10));
            assert(text[5] == json::hex_digit(c as nat % 0x10));
        }
    }
}

proof fn lemma_escaped_without_control(content: Seq<char>)
    ensures
        without_control(json::escaped(content)),
    decreases content.len(),
{
    if content.len() > 0 {
        lemma_escaped_without_control(content.drop_first());
        lemma_escape_without_control(content[0]);
        lemma_concat_without_control(
            json::escape(content[0]),
            json::escaped(content.drop_first()),
        );
    }
}

proof fn lemma_member_without_control(member: (Seq<char>, Value))
    ensures
        without_control(json::render_member(member)),
{
    lemma_escaped_without_control(member.0);
    match member.1 {
        Value::Text(content) => {
            lemma_escaped_without_control(content);
        },
        Value::Number(number) => {
            lemma_decimal(number);
        },
        _ => {},
    }
    assert(without_control(json::render_value(member.1)));
    assert(without_control(json::json_string(member.0)));
    lemma_concat_without_control(json::json_string(member.0), seq![':']);
    lemma_concat_without_control(
        json::json_string(member.0) + seq![':'],
        json::render_value(member.1),
    );
}

proof fn lemma_members_without_control(members: Seq<(Seq<char>, Value)>)
    ensures
        without_control(json::render_members(members)),
    decreases members.len(),
{
    if members.len() == 1 {
        lemma_member_without_control(members[0]);
    } else if members.len() > 1 {
        let front = json::render_members(members.drop_last());
        lemma_members_without_control(members.drop_last());
        lemma_member_without_control(members.last());
        lemma_concat_without_control(front, seq![',']);
        lemma_concat_without_control(front + seq![','], json::render_member(members.last()));
    }
}

/// An object's text holds no control character, and so no line break, whatever its members hold:
/// one event is one line.
pub proof fn law_object_is_one_line(members: Seq<(Seq<char>, Value)>)
    ensures
        without_control(json::render_object(members)),
        !json::render_object(members).contains('\n'),
{
    lemma_members_without_control(members);
    lemma_concat_without_control(seq!['{'], json::render_members(members));
    lemma_concat_without_control(seq!['{'] + json::render_members(members), seq!['}']);
    assert(json::control('\n'));
}

} // verus!
