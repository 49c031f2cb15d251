use vstd::prelude::*;
use crate::ctags::{kind_of, Ctag, CtagsOutput, RecordKind};

verus! {

/// The two lowercase hex digits of a value below 256.
pub open spec fn hex_digit(d: int) -> char {
    if d < 10 {
        (('0' as int) + d) as char
    } else {
        (('a' as int) + d - 10) as char
    }
}

/// How a JSON string literal writes one character: quote, backslash and the
/// control characters are escaped, everything else stands as it is.
pub open spec fn escape_char(c: char) -> Seq<char> {
    if c == '"' {
        seq!['\\', '"']
    } else if c == '\\' {
        seq!['\\', '\\']
    } else if c == '\x08' {
        seq!['\\', 'b']
    } else if c == '\t' {
        seq!['\\', 't']
    } else if c == '\n' {
        seq!['\\', 'n']
    } else if c == '\x0c' {
        seq!['\\', 'f']
    } else if c == '\r' {
        seq!['\\', 'r']
    } else if (c as int) < 0x20 {
        seq!['\\', 'u', '0', '0', hex_digit((c as int) / 16), hex_digit((c as int) % 16)]
    } else {
        seq![c]
    }
}

pub open spec fn escaped(s: Seq<char>) -> Seq<char>
    decreases s.len(),
{
    if s.len() == 0 {
        Seq::empty()
    } else {
        escape_char(s[0]) + escaped(s.drop_first())
    }
}

/// A text as a JSON string literal.
pub open spec fn quoted(s: Seq<char>) -> Seq<char> {
    seq!['"'] + escaped(s) + seq!['"']
}

/// The decimal digits of a number, without leading zeros.
pub open spec fn decimal(n: nat) -> Seq<char>
    decreases n,
{
    if n < 10 {
        seq![(('0' as int) + n) as char]
    } else {
        decimal(n / 10).push((('0' as int) + n % 10) as char)
    }
}

/// Relies on `serde_json::to_string` for a `str`: it writes the string
/// literal with the escapes of `serde_json::ser::format_escaped_str`, and
/// serialising a `str` into memory does not fail.
#[verifier::external_body]
fn json_string(s: &str) -> (r: String)
    ensures
        r@ == quoted(s@),
{
    match serde_json::to_string(s) {
        Ok(t) => t,
        Err(_) => String::new(),
    }
}

/// The one-character text of a decimal digit.
fn digit_text(d: u32) -> (r: &'static str)
    requires
        d < 10,
    ensures
        r@ == seq![(('0' as int) + d) as char],
{
    match d {
        0 => {
            proof {
                reveal_strlit("0");
            }
            "0"
        },
        1 => {
            proof {
                reveal_strlit("1");
            }
            "1"
        },
        2 => {
            proof {
                reveal_strlit("2");
            }
            "2"
        },
        3 => {
            proof {
                reveal_strlit("3");
            }
            "3"
        },
        4 => {
            proof {
                reveal_strlit("4");
            }
            "4"
        },
        5 => {
            proof {
                reveal_strlit("5");
            }
            "5"
        },
        6 => {
            proof {
                reveal_strlit("6");
            }
            "6"
        },
        7 => {
            proof {
                reveal_strlit("7");
            }
            "7"
        },
        8 => {
            proof {
                reveal_strlit("8");
            }
            "8"
        },
        _ => {
            proof {
                reveal_strlit("9");
            }
            "9"
        },
    }
}

/// The decimal digits of `n`.
fn decimal_string(n: u32) -> (r: String)
    ensures
        r@ == decimal(n as nat),
    decreases n,
{
    if n < 10 {
        String::from_str(digit_text(n))
    } else {
        let mut s = decimal_string(n / 10);
        s.append(digit_text(n % 10));
        proof {
            assert(decimal(n as nat) == decimal((n / 10) as nat).push((('0' as int) + n % 10) as char));
        }
        s
    }
}

/// An optional text as JSON: a string literal, or `null`.
pub open spec fn optional_text(o: Option<Seq<char>>) -> Seq<char> {
    match o {
        Some(s) => quoted(s),
        None => "null"@,
    }
}

pub open spec fn text_of(o: Option<String>) -> Option<Seq<char>> {
    match o {
        Some(s) => Some(s@),
        None => None,
    }
}

pub open spec fn optional_number(o: Option<u32>) -> Seq<char> {
    match o {
        Some(n) => decimal(n as nat),
        None => "null"@,
    }
}

pub open spec fn record_type_of(t: Ctag) -> Seq<char> {
    match t.record_kind {
        RecordKind::Tag { .. } => "tag"@,
        RecordKind::PseudoTag => "ptag"@,
    }
}

/// The canonical serialised form of a record: a compact JSON object with the
/// extraction tool's field names, in a fixed order, absent fields as `null`.
pub open spec fn record_json(t: Ctag) -> Seq<char> {
    "{\"_type\":"@ + quoted(record_type_of(t)) + ",\"name\":"@ + optional_text(text_of(t.name))
        + ",\"path\":"@ + optional_text(text_of(t.path)) + ",\"pattern\":"@ + optional_text(
        text_of(t.pattern),
    ) + ",\"parser_name\":"@ + optional_text(text_of(t.parser_name)) + ",\"kind\":"@
        + optional_text(kind_of(t)) + ",\"scope\":"@ + optional_text(text_of(t.scope))
        + ",\"scope_kind\":"@ + optional_text(text_of(t.scope_kind)) + ",\"line\":"@
        + optional_number(t.line) + "}"@
}

fn push_optional_text(out: &mut String, o: &Option<String>)
    ensures
        final(out)@ == old(out)@ + optional_text(text_of(*o)),
{
    match o {
        Some(s) => {
            let q = json_string(s.as_str());
            out.append(q.as_str());
        },
        None => out.append("null"),
    }
}

impl Ctag {
    /// The record in its canonical serialised form.
    pub fn to_json(&self) -> (r: String)
        ensures
            r@ == record_json(*self),
    {
        let mut out = String::new();
        out.append("{\"_type\":");
        let record_type = match &self.record_kind {
            RecordKind::Tag { .. } => json_string("tag"),
            RecordKind::PseudoTag => json_string("ptag"),
        };
        out.append(record_type.as_str());
        out.append(",\"name\":");
        push_optional_text(&mut out, &self.name);
        out.append(",\"path\":");
        push_optional_text(&mut out, &self.path);
        out.append(",\"pattern\":");
        push_optional_text(&mut out, &self.pattern);
        out.append(",\"parser_name\":");
        push_optional_text(&mut out, &self.parser_name);
        out.append(",\"kind\":");
        match &self.record_kind {
            RecordKind::Tag { kind } => {
                let q = json_string(kind.as_str());
                out.append(q.as_str());
            },
            RecordKind::PseudoTag => out.append("null"),
        }
        out.append(",\"scope\":");
        push_optional_text(&mut out, &self.scope);
        out.append(",\"scope_kind\":");
        push_optional_text(&mut out, &self.scope_kind);
        out.append(",\"line\":");
        match self.line {
            Some(n) => {
                let d = decimal_string(n);
                out.append(d.as_str());
            },
            None => out.append("null"),
        }
        out.append("}");
        out
    }
}

/// The records' canonical forms, separated by commas.
pub open spec fn joined(s: Seq<Ctag>) -> Seq<char>
    decreases s.len(),
{
    if s.len() == 0 {
        Seq::empty()
    } else if s.len() == 1 {
        record_json(s[0])
    } else {
        joined(s.drop_last()) + ","@ + record_json(s.last())
    }
}

/// A catalog as a compact JSON array of its records' canonical forms.
pub open spec fn catalog_json(s: Seq<Ctag>) -> Seq<char> {
    "["@ + joined(s) + "]"@
}

impl CtagsOutput {
    /// The catalog in its canonical serialised form.
    pub fn to_json(&self) -> (r: String)
        ensures
            r@ == catalog_json(self@),
    {
        let mut body = String::new();
        let mut i: usize = 0;
        while i < self.0.len()
            invariant
                i <= self.0.len(),
                body@ == joined(self@.take(i as int)),
            decreases self.0.len() - i,
        {
            proof {
                assert(self@.take(i + 1).drop_last() =~= self@.take(i as int));
            }
            if i > 0 {
                body.append(",");
            }
            let one = self.0[i].to_json();
            body.append(one.as_str());
            proof {
                if i == 0 {
                    assert(self@.take(1) =~= seq![self@[0]]);
                }
            }
            i = i + 1;
        }
        assert(self@.take(i as int) =~= self@);
        let mut out = String::new();
        out.append("[");
        out.append(body.as_str());
        out.append("]");
        out
    }
}

} // verus!
