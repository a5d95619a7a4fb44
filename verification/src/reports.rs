//! Texts shown when the application fails: crash dialogs, exit codes and
//! where a report was written, and the UTF-16 text that Windows dialogs take.
use vstd::prelude::*;
use crate::strings::{chars_of, string_from_range};
use crate::numbers::{decimal, hex_digits, push_decimal, push_hex_digits};

verus! {

/// Longest message, in characters, that a dialog shows.
pub const MAX_DIALOG_CHARS: usize = 1800;

pub open spec fn dialog_text(message: Seq<char>) -> Seq<char> {
    if message.len() <= MAX_DIALOG_CHARS {
        message
    } else {
        message.take(MAX_DIALOG_CHARS as int) + "\n..."@
    }
}

/// The message cut to 1800 characters, with a marker when it was cut.
pub fn truncate_dialog_message(message: &str) -> (r: String)
    ensures
        r@ == dialog_text(message@),
{
    let chars = chars_of(message);
    if chars.len() <= MAX_DIALOG_CHARS {
        return String::from_str(message);
    }
    let mut truncated = string_from_range(&chars, 0, MAX_DIALOG_CHARS);
    truncated.append("\n...");
    proof {
        reveal_strlit("\n...");
        assert(chars@.subrange(0, MAX_DIALOG_CHARS as int) == chars@.take(MAX_DIALOG_CHARS as int));
    }
    truncated
}

/// An exit code as Windows writes it: `0x` and eight upper-case hexadecimal
/// digits of its 32 bits.
pub fn windows_exit_code_hex(code: i32) -> (r: String)
    ensures
        r@ == "0x"@ + hex_digits((code as u32) as nat, 8),
{
    let mut text = String::from_str("0x");
    proof {
        reveal_strlit("0x");
    }
    push_hex_digits(&mut text, (code as u32) as u64, 8);
    text
}

pub open spec fn signed_decimal(n: int) -> Seq<char> {
    if n < 0 {
        seq!['-'] + decimal((-n) as nat)
    } else {
        decimal(n as nat)
    }
}

fn push_signed_decimal(out: &mut String, n: i32)
    ensures
        final(out)@ == old(out)@ + signed_decimal(n as int),
{
    if n < 0 {
        out.push('-');
        let magnitude: u64 = (0 - (n as i64)) as u64;
        push_decimal(out, magnitude);
    } else {
        push_decimal(out, n as u64);
    }
}

pub open spec fn exit_status_text(code: Option<i32>) -> Seq<char> {
    match code {
        Some(c) => "Código de saída: "@ + signed_decimal(c as int) + " ("@ + "0x"@ + hex_digits(
            (c as u32) as nat,
            8,
        ) + ")"@,
        None => "Processo finalizado sem código de saída disponível."@,
    }
}

/// How a finished process ended: its exit code in decimal and as Windows
/// writes it, or that it has none.
pub fn exit_status_line(code: Option<i32>) -> (r: String)
    ensures
        r@ == exit_status_text(code),
{
    proof {
        reveal_strlit("Código de saída: ");
        reveal_strlit(" (");
        reveal_strlit(")");
        reveal_strlit("Processo finalizado sem código de saída disponível.");
    }
    match code {
        Some(c) => {
            let mut text = String::from_str("Código de saída: ");
            push_signed_decimal(&mut text, c);
            text.append(" (");
            let hex = windows_exit_code_hex(c);
            text.append(hex.as_str());
            text.append(")");
            text
        },
        None => String::from_str("Processo finalizado sem código de saída disponível."),
    }
}

pub open spec fn report_text(report_path: Option<Seq<char>>) -> Seq<char> {
    match report_path {
        Some(p) => "Relatório: "@ + p,
        None => "Relatório: não foi possível gravar o arquivo de diagnóstico."@,
    }
}

/// Where the diagnostic report went (the path as shown), or that it could
/// not be written.
pub fn report_line(report_path: Option<&str>) -> (r: String)
    ensures
        r@ == report_text(match report_path {
            Some(p) => Some(p@),
            None => None,
        }),
{
    proof {
        reveal_strlit("Relatório: ");
        reveal_strlit("Relatório: não foi possível gravar o arquivo de diagnóstico.");
    }
    match report_path {
        Some(p) => {
            let mut text = String::from_str("Relatório: ");
            text.append(p);
            text
        },
        None => String::from_str("Relatório: não foi possível gravar o arquivo de diagnóstico."),
    }
}

/// The dialog shown after a panic, cut to the dialog length.
pub fn panic_dialog_message(payload: &str, location: &str, report_path: Option<&str>) -> (r: String)
    ensures
        r@ == dialog_text(
            "O aplicativo encontrou um erro fatal e precisa ser encerrado.\n\nErro: "@ + payload@
                + "\nLocal: "@ + location@ + "\n"@ + report_text(match report_path {
                Some(p) => Some(p@),
                None => None,
            }),
        ),
{
    let mut text = String::from_str(
        "O aplicativo encontrou um erro fatal e precisa ser encerrado.\n\nErro: ",
    );
    text.append(payload);
    text.append("\nLocal: ");
    text.append(location);
    text.append("\n");
    let line = report_line(report_path);
    text.append(line.as_str());
    proof {
        reveal_strlit("O aplicativo encontrou um erro fatal e precisa ser encerrado.\n\nErro: ");
        reveal_strlit("\nLocal: ");
        reveal_strlit("\n");
    }
    truncate_dialog_message(text.as_str())
}

/// The UTF-16 code units of a character.
pub open spec fn utf16_units(c: char) -> Seq<u16> {
    let v = c as u32;
    if v < 0x10000 {
        seq![v as u16]
    } else {
        let w = (v - 0x10000) as nat;
        seq![(0xD800 + w / 0x400) as u16, (0xDC00 + w % 0x400) as u16]
    }
}

pub open spec fn utf16_text(s: Seq<char>) -> Seq<u16>
    decreases s.len(),
{
    if s.len() == 0 {
        seq![]
    } else {
        utf16_text(s.drop_last()) + utf16_units(s.last())
    }
}

/// The text in UTF-16 with a terminating zero, as Windows APIs take it.
pub fn wide_null(value: &str) -> (r: Vec<u16>)
    ensures
        r@ == utf16_text(value@).push(0),
{
    let chars = chars_of(value);
    let mut units: Vec<u16> = Vec::new();
    let mut i: usize = 0;
    while i < chars.len()
        invariant
            i <= chars.len(),
            chars@ == value@,
            units@ == utf16_text(chars@.take(i as int)),
        decreases chars.len() - i,
    {
        assert(chars@.take(i + 1).drop_last() == chars@.take(i as int));
        let v = chars[i] as u32;
        proof {
            vstd::utf8::char_is_scalar(chars[i as int]);
        }
        if v < 0x10000 {
            units.push(v as u16);
        } else {
            let w = v - 0x10000;
            units.push((0xD800 + w / 0x400) as u16);
            units.push((0xDC00 + w % 0x400) as u16);
        }
        i = i + 1;
        assert(units@ =~= utf16_text(chars@.take(i as int)));
    }
    assert(chars@.take(chars.len() as int) == chars@);
    units.push(0);
    units
}

/// A dialog never shows more than 1800 characters of a message plus the
/// cut marker, and what it shows is the start of the message.
pub proof fn law_dialog_text_is_bounded(message: Seq<char>)
    ensures
        dialog_text(message).len() <= MAX_DIALOG_CHARS + 4,
        ({
            let shown = if message.len() <= MAX_DIALOG_CHARS {
                message.len() as int
            } else {
                MAX_DIALOG_CHARS as int
            };
            dialog_text(message).take(shown) == message.take(shown)
        }),
{
    reveal_strlit("\n...");
    if message.len() > MAX_DIALOG_CHARS {
        assert(dialog_text(message).take(MAX_DIALOG_CHARS as int) =~= message.take(
            MAX_DIALOG_CHARS as int,
        ));
    } else {
        assert(message.take(message.len() as int) =~= message);
    }
}

} // verus!
