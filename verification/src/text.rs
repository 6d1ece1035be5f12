//! Text the server composes: decimal numbers, quoted lists and the debug form of values.

use vstd::prelude::*;
use vstd::string::StringExecFns;

verus! {

/// The character of a decimal digit.
pub open spec fn digit(value: nat) -> char {
    ('0' as int + value as int) as char
}

/// A number in decimal, with no leading zero.
pub open spec fn decimal(value: nat) -> Seq<char>
    decreases value,
{
    if value < 10 {
        seq![digit(value)]
    } else {
        decimal(value / 10).push(digit(value % 10))
    }
}

/// One decimal digit as text.
fn digit_text(value: u64) -> (text: &'static str)
    requires
        value < 10,
    ensures
        text@ == seq![digit(value as nat)],
{
    proof {
        reveal_strlit("0");
        reveal_strlit("1");
        reveal_strlit("2");
        reveal_strlit("3");
        reveal_strlit("4");
        reveal_strlit("5");
        reveal_strlit("6");
        reveal_strlit("7");
        reveal_strlit("8");
        reveal_strlit("9");
    }
    let text: &'static str = match value {
        0 => "0",
        1 => "1",
        2 => "2",
        3 => "3",
        4 => "4",
        5 => "5",
        6 => "6",
        7 => "7",
        8 => "8",
        _ => "9",
    };
    assert(text@ =~= seq![digit(value as nat)]);
    text
}

/// Appends `value` in decimal.
pub fn push_decimal(text: &mut String, value: u64)
    ensures
        final(text)@ == old(text)@ + decimal(value as nat),
    decreases value,
{
    if value >= 10 {
        push_decimal(text, value / 10);
    }
    text.append(digit_text(value % 10));
    assert(text@ =~= old(text)@ + decimal(value as nat));
}

/// A signed number in decimal.
pub open spec fn signed_decimal(value: int) -> Seq<char> {
    if value < 0 {
        "-"@ + decimal((-value) as nat)
    } else {
        decimal(value as nat)
    }
}

/// Appends `value` in decimal, with its sign when it is negative.
pub fn push_signed(text: &mut String, value: i32)
    ensures
        final(text)@ == old(text)@ + signed_decimal(value as int),
{
    if value < 0 {
        text.append("-");
        push_decimal(text, (-(value as i64)) as u64);
    } else {
        push_decimal(text, value as u64);
    }
    assert(text@ =~= old(text)@ + signed_decimal(value as int));
}

/// The words of `list`, each in double quotes, separated by commas.
pub open spec fn quoted(list: Seq<&'static str>) -> Seq<char>
    decreases list.len(),
{
    if list.len() == 0 {
        Seq::empty()
    } else if list.len() == 1 {
        "\""@ + list[0]@ + "\""@
    } else {
        quoted(list.drop_last()) + ", \""@ + list.last()@ + "\""@
    }
}

/// Appends the words of `list`, each in double quotes, separated by commas.
pub fn push_quoted(text: &mut String, list: &Vec<&'static str>)
    ensures
        final(text)@ == old(text)@ + quoted(list@),
{
    let mut i: usize = 0;
    assert(text@ =~= old(text)@ + quoted(list@.take(0)));
    while i < list.len()
        invariant
            i <= list.len(),
            text@ == old(text)@ + quoted(list@.take(i as int)),
        decreases list.len() - i,
    {
        proof {
            assert(list@.take(i + 1).drop_last() =~= list@.take(i as int));
            assert(list@.take(i + 1).last() == list@[i as int]);
        }
        if i == 0 {
            text.append("\"");
        } else {
            text.append(", \"");
        }
        text.append(list[i]);
        text.append("\"");
        i += 1;
        proof {
            assert(text@ =~= old(text)@ + quoted(list@.take(i as int)));
        }
    }
    assert(list@.take(i as int) =~= list@);
}

/// What std's `Debug` writes for a text.
pub uninterp spec fn shown(text: Seq<char>) -> Seq<char>;

/// A text as `<str as std::fmt::Debug>::fmt` writes it, in quotes and with its escapes: what is
/// written depends on the text alone. Which characters are escaped, and how, is left unsaid.
#[verifier::external_body]
pub(crate) fn show(text: &str) -> (written: String)
    ensures
        written@ == shown(text@),
{
    format!("{text:?}")
}

/// Texts one after the other, with a comma between.
pub open spec fn listed(texts: Seq<Seq<char>>) -> Seq<char>
    decreases texts.len(),
{
    if texts.len() == 0 {
        Seq::empty()
    } else if texts.len() == 1 {
        texts[0]
    } else {
        listed(texts.drop_last()) + ", "@ + texts.last()
    }
}

/// The characters of texts, in their order.
pub open spec fn all_chars(texts: Seq<String>) -> Seq<Seq<char>> {
    texts.map_values(|text: String| text@)
}

/// Appends texts, with a comma between.
pub fn push_listed(out: &mut String, texts: &Vec<String>)
    ensures
        final(out)@ == old(out)@ + listed(all_chars(texts@)),
{
    let ghost all = all_chars(texts@);
    let mut i: usize = 0;
    assert(out@ =~= old(out)@ + listed(all.take(0)));
    while i < texts.len()
        invariant
            i <= texts@.len(),
            all == all_chars(texts@),
            out@ == old(out)@ + listed(all.take(i as int)),
        decreases texts@.len() - i,
    {
        assert(all.take(i + 1).drop_last() =~= all.take(i as int));
        if i > 0 {
            out.append(", ");
        }
        out.append(texts[i].as_str());
        i += 1;
        assert(out@ =~= old(out)@ + listed(all.take(i as int)));
    }
    assert(all.take(i as int) =~= all);
}

/// The debug forms of texts, in their order.
pub open spec fn all_shown(texts: Seq<String>) -> Seq<Seq<char>> {
    texts.map_values(|text: String| shown(text@))
}

/// The debug forms of texts, in their order.
pub fn show_all(texts: &Vec<String>) -> (forms: Vec<String>)
    ensures
        all_chars(forms@) == all_shown(texts@),
{
    let mut forms: Vec<String> = Vec::new();
    let mut i: usize = 0;
    while i < texts.len()
        invariant
            i <= texts@.len(),
            all_chars(forms@) == all_shown(texts@.take(i as int)),
        decreases texts@.len() - i,
    {
        let ghost before = forms@;
        forms.push(show(texts[i].as_str()));
        assert(all_chars(forms@) =~= all_chars(before).push(shown(texts@[i as int]@)));
        assert(all_shown(texts@.take(i + 1)) =~= all_shown(texts@.take(i as int)).push(
            shown(texts@[i as int]@),
        ));
        i += 1;
    }
    assert(texts@.take(i as int) =~= texts@);
    forms
}

/// Numbers in decimal, in their order.
pub open spec fn all_decimal(bytes: Seq<u8>) -> Seq<Seq<char>> {
    bytes.map_values(|byte: u8| decimal(byte as nat))
}

/// Numbers in decimal, in their order.
pub fn decimals(bytes: &Vec<u8>) -> (forms: Vec<String>)
    ensures
        all_chars(forms@) == all_decimal(bytes@),
{
    let mut forms: Vec<String> = Vec::new();
    let mut i: usize = 0;
    while i < bytes.len()
        invariant
            i <= bytes@.len(),
            all_chars(forms@) == all_decimal(bytes@.take(i as int)),
        decreases bytes@.len() - i,
    {
        let ghost before = forms@;
        let mut form = String::new();
        push_decimal(&mut form, bytes[i] as u64);
        assert(form@ =~= decimal(bytes@[i as int] as nat));
        forms.push(form);
        assert(all_chars(forms@) =~= all_chars(before).push(decimal(bytes@[i as int] as nat)));
        assert(all_decimal(bytes@.take(i + 1)) =~= all_decimal(bytes@.take(i as int)).push(
            decimal(bytes@[i as int] as nat),
        ));
        i += 1;
    }
    assert(bytes@.take(i as int) =~= bytes@);
    forms
}

/// The debug form of a variant with one field.
pub open spec fn one_field(variant: Seq<char>, field: Seq<char>, value: Seq<char>) -> Seq<char> {
    variant + " { "@ + field + ": "@ + value + " }"@
}

/// Appends the debug form of a variant with one field, its value already in its own form.
pub fn push_one_field(out: &mut String, variant: &str, field: &str, value: &str)
    ensures
        final(out)@ == old(out)@ + one_field(variant@, field@, value@),
{
    out.append(variant);
    out.append(" { ");
    out.append(field);
    out.append(": ");
    out.append(value);
    out.append(" }");
    assert(out@ =~= old(out)@ + one_field(variant@, field@, value@));
}

/// The debug form of a variant with two fields, each a name and a value.
pub open spec fn two_fields(
    variant: Seq<char>,
    first: (Seq<char>, Seq<char>),
    second: (Seq<char>, Seq<char>),
) -> Seq<char> {
    variant + " { "@ + first.0 + ": "@ + first.1 + ", "@ + second.0 + ": "@ + second.1 + " }"@
}

/// Appends the debug form of a variant with two fields, their values already in their own forms.
pub fn push_two_fields(
    out: &mut String,
    variant: &str,
    first: (&str, &str),
    second: (&str, &str),
)
    ensures
        final(out)@ == old(out)@ + two_fields(
            variant@,
            (first.0@, first.1@),
            (second.0@, second.1@),
        ),
{
    out.append(variant);
    out.append(" { ");
    out.append(first.0);
    out.append(": ");
    out.append(first.1);
    out.append(", ");
    out.append(second.0);
    out.append(": ");
    out.append(second.1);
    out.append(" }");
    assert(out@ =~= old(out)@ + two_fields(
        variant@,
        (first.0@, first.1@),
        (second.0@, second.1@),
    ));
}

} // verus!
