//! The report of a validation as a JSON text, and the texts of its parts.
use crate::text::{chars_of, alphanumeric, text3, text5};
use crate::validator::{diagnostics, Diagnostic, ValidationError};
use vstd::prelude::*;

verus! {

impl Diagnostic {
    /// The line that shows the finding.
    pub open spec fn line(self) -> Seq<char> {
        match self {
            Diagnostic::Rule(rule, message) => "バリデーション["@ + rule + "]: "@ + message,
            Diagnostic::Warning(rule, message) => "警告["@ + rule + "]: "@ + message,
        }
    }

    /// The severity of the finding in a report.
    pub open spec fn severity(self) -> Seq<char> {
        match self {
            Diagnostic::Rule(_, _) => "error"@,
            Diagnostic::Warning(_, _) => "warning"@,
        }
    }

    /// The finding as a JSON object.
    pub open spec fn json(self) -> Seq<char> {
        "{\"severity\":\""@ + self.severity() + "\",\"rule\":\""@ + json_escaped(self.rule())
            + "\",\"message\":\""@ + json_escaped(self.message()) + "\"}"@
    }
}

impl ValidationError {
    /// The line that shows the finding.
    pub fn message(&self) -> (r: String)
        ensures
            r@ == self@.line(),
    {
        match self {
            ValidationError::Rule(rule, message) => {
                let mut r = text3("バリデーション[", rule.as_str(), "]: ");
                r.append(message.as_str());
                r
            },
            ValidationError::Warning(rule, message) => {
                let mut r = text3("警告[", rule.as_str(), "]: ");
                r.append(message.as_str());
                r
            },
        }
    }
}

/// What stands for a character inside a JSON string: a backslash before a
/// quote or a backslash, `\n`, `\r` and `\t` for a line feed, a carriage
/// return and a tab, and any other character itself.
pub open spec fn json_escaped_char(c: char) -> Seq<char> {
    if c == '"' {
        seq!['\\', '"']
    } else if c == '\\' {
        seq!['\\', '\\']
    } else if c == '\n' {
        seq!['\\', 'n']
    } else if c == '\r' {
        seq!['\\', 'r']
    } else if c == '\t' {
        seq!['\\', 't']
    } else {
        seq![c]
    }
}

/// A text as it stands inside a JSON string.
pub open spec fn json_escaped(s: Seq<char>) -> Seq<char>
    decreases s.len(),
{
    if s.len() == 0 {
        Seq::empty()
    } else {
        json_escaped(s.drop_last()) + json_escaped_char(s.last())
    }
}

/// A text as it stands inside a JSON string.
pub fn escape_json_string(value: &str) -> (escaped: String)
    ensures
        escaped@ == json_escaped(value@),
{
    let cs = chars_of(value);
    let mut escaped = String::new();
    let mut i: usize = 0;
    proof {
        reveal_strlit("\\\"");
        reveal_strlit("\\\\");
        reveal_strlit("\\n");
        reveal_strlit("\\r");
        reveal_strlit("\\t");
        assert(value@.take(0) =~= Seq::<char>::empty());
    }
    while i < cs.len()
        invariant
            i <= cs.len(),
            cs@ == value@,
            escaped@ == json_escaped(value@.take(i as int)),
            "\\\""@ =~= seq!['\\', '"'],
            "\\\\"@ =~= seq!['\\', '\\'],
            "\\n"@ =~= seq!['\\', 'n'],
            "\\r"@ =~= seq!['\\', 'r'],
            "\\t"@ =~= seq!['\\', 't'],
        decreases cs.len() - i,
    {
        let c = cs[i];
        proof {
            assert(value@.take(i + 1).drop_last() =~= value@.take(i as int));
            assert(value@.take(i + 1).last() == c);
        }
        if c == '"' {
            escaped.append("\\\"");
        } else if c == '\\' {
            escaped.append("\\\\");
        } else if c == '\n' {
            escaped.append("\\n");
        } else if c == '\r' {
            escaped.append("\\r");
        } else if c == '\t' {
            escaped.append("\\t");
        } else {
            let one = value.substring_char(i, i + 1);
            proof {
                assert(one@ =~= seq![c]);
            }
            escaped.append(one);
        }
        i += 1;
    }
    proof {
        assert(value@.take(cs.len() as int) =~= value@);
    }
    escaped
}

/// A finding as a JSON object with its severity, its rule and its message.
pub fn diagnostic_json(error: &ValidationError) -> (r: String)
    ensures
        r@ == error@.json(),
{
    let (severity, rule, message) = match error {
        ValidationError::Rule(rule, message) => ("error", rule, message),
        ValidationError::Warning(rule, message) => ("warning", rule, message),
    };
    let rule_text = escape_json_string(rule.as_str());
    let message_text = escape_json_string(message.as_str());
    let mut r = text5(
        "{\"severity\":\"",
        severity,
        "\",\"rule\":\"",
        rule_text.as_str(),
        "\",\"message\":\"",
    );
    r.append(message_text.as_str());
    r.append("\"}");
    r
}

/// A finding of the list blocks.
pub open spec fn blocks(found: Seq<Diagnostic>) -> bool {
    exists|i: int| 0 <= i < found.len() && #[trigger] found[i] is Rule
}

/// Whether a finding of the list blocks: whether it holds a `Rule`.
pub fn has_rule_error(errors: &Vec<ValidationError>) -> (r: bool)
    ensures
        r == blocks(diagnostics(errors@)),
{
    let mut i: usize = 0;
    while i < errors.len()
        invariant
            i <= errors.len(),
            forall|j: int| 0 <= j < i ==> !(#[trigger] diagnostics(errors@)[j] is Rule),
        decreases errors.len() - i,
    {
        match &errors[i] {
            ValidationError::Rule(_, _) => {
                proof {
                    assert(diagnostics(errors@)[i as int] is Rule);
                }
                return true;
            },
            ValidationError::Warning(_, _) => {},
        }
        i += 1;
    }
    false
}

/// The findings as JSON objects, with a comma between two of them.
pub open spec fn json_list(found: Seq<Diagnostic>) -> Seq<char>
    decreases found.len(),
{
    if found.len() == 0 {
        Seq::empty()
    } else if found.len() == 1 {
        found[0].json()
    } else {
        json_list(found.drop_last()) + ","@ + found.last().json()
    }
}

/// The status of a validation: `error` where a finding blocks, else `ok`.
pub open spec fn status(found: Seq<Diagnostic>) -> Seq<char> {
    if blocks(found) {
        "error"@
    } else {
        "ok"@
    }
}

/// The report of a validation as a JSON text.
pub open spec fn report_json(file: Seq<char>, found: Seq<Diagnostic>) -> Seq<char> {
    "{\"file\":\""@ + json_escaped(file) + "\",\"status\":\""@ + status(found)
        + "\",\"diagnostics\":["@ + json_list(found) + "]}"@
}

/// The report of a validation as a JSON text: the file, the status and the
/// findings in their order.
pub fn validation_json(file: &str, errors: &Vec<ValidationError>) -> (r: String)
    ensures
        r@ == report_json(file@, diagnostics(errors@)),
{
    let ghost found = diagnostics(errors@);
    let mut list = String::new();
    let mut i: usize = 0;
    proof {
        assert(found.take(0) =~= Seq::<Diagnostic>::empty());
    }
    while i < errors.len()
        invariant
            i <= errors.len(),
            found == diagnostics(errors@),
            list@ == json_list(found.take(i as int)),
        decreases errors.len() - i,
    {
        proof {
            assert(found.take(i + 1).drop_last() =~= found.take(i as int));
            assert(found.take(i + 1).last() == errors@[i as int]@);
            assert(found.take(i + 1)[0] == found[0]);
        }
        if i > 0 {
            list.append(",");
        } else {
            proof {
                assert(list@ + errors@[0]@.json() =~= errors@[0]@.json());
            }
        }
        let item = diagnostic_json(&errors[i]);
        list.append(item.as_str());
        i += 1;
    }
    proof {
        assert(found.take(errors.len() as int) =~= found);
    }
    let file_text = escape_json_string(file);
    let state = if has_rule_error(errors) {
        "error"
    } else {
        "ok"
    };
    let mut r = text5(
        "{\"file\":\"",
        file_text.as_str(),
        "\",\"status\":\"",
        state,
        "\",\"diagnostics\":[",
    );
    r.append(list.as_str());
    r.append("]}");
    r
}

/// The report of a document that could not be parsed, as a JSON text.
pub open spec fn parse_failure_report(file: Seq<char>, cause: Seq<char>) -> Seq<char> {
    "{\"file\":\""@ + json_escaped(file)
        + "\",\"status\":\"error\",\"diagnostics\":[{\"severity\":\"error\",\"rule\":\"parse\",\"message\":\""@
        + json_escaped(cause) + "\"}]}"@
}

/// The report of a document that could not be parsed, as a JSON text: one
/// finding of the rule `parse` with the cause as its message.
pub fn parse_failure_json(file: &str, cause: &str) -> (r: String)
    ensures
        r@ == parse_failure_report(file@, cause@),
{
    let file_text = escape_json_string(file);
    let cause_text = escape_json_string(cause);
    text5(
        "{\"file\":\"",
        file_text.as_str(),
        "\",\"status\":\"error\",\"diagnostics\":[{\"severity\":\"error\",\"rule\":\"parse\",\"message\":\"",
        cause_text.as_str(),
        "\"}]}",
    )
}

/// A name as a file name: every character that is neither alphanumeric nor a
/// hyphen nor an underscore gives way to a hyphen.
pub open spec fn safe_name(name: Seq<char>) -> Seq<char> {
    name.map_values(
        |c: char|
            if alphanumeric(c) || c == '-' || c == '_' {
                c
            } else {
                '-'
            },
    )
}

/// A name as a file name: every character that is neither alphanumeric nor a
/// hyphen nor an underscore gives way to a hyphen.
pub fn safe_file_name(name: &str) -> (r: String)
    ensures
        r@ == safe_name(name@),
{
    let cs = chars_of(name);
    let mut r = String::new();
    let mut i: usize = 0;
    proof {
        reveal_strlit("-");
        assert(r@ =~= safe_name(name@).take(0));
    }
    while i < cs.len()
        invariant
            i <= cs.len(),
            cs@ == name@,
            r@ == safe_name(name@).take(i as int),
            "-"@ =~= seq!['-'],
        decreases cs.len() - i,
    {
        let c = cs[i];
        if c.is_alphanumeric() || c == '-' || c == '_' {
            let one = name.substring_char(i, i + 1);
            proof {
                assert(one@ =~= seq![c]);
            }
            r.append(one);
        } else {
            r.append("-");
        }
        proof {
            assert(r@ =~= safe_name(name@).take(i + 1));
        }
        i += 1;
    }
    proof {
        assert(safe_name(name@).take(cs.len() as int) =~= safe_name(name@));
    }
    r
}

} // verus!
