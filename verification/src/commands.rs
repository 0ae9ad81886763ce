//! Follow-up command lines that results suggest, with their arguments quoted
//! for a POSIX shell where needed.
use vstd::prelude::*;
use crate::sheets::{freeze_sheet_selector, sheet_id_selector, WorkbookSheet};
use crate::text::{concat3, concat4, is_ascii_alpha, is_ascii_digit, replace_all, replace_str, str_chars};

verus! {

/// A character that needs no quoting on a shell command line.
pub open spec fn shell_safe(c: char) -> bool {
    is_ascii_alpha(c) || is_ascii_digit(c) || c == '-' || c == '_' || c == '.' || c == '/' || c == ':'
        || c == '=' || c == '@' || c == '%' || c == '+' || c == ','
}

/// An argument as written on a command line: as is when it is non-empty and
/// every character is safe, else in single quotes (a quote as `'\''`).
pub open spec fn command_arg_spec(s: Seq<char>) -> Seq<char> {
    if s.len() > 0 && forall|i: int| 0 <= i < s.len() ==> shell_safe(#[trigger] s[i]) {
        s
    } else {
        seq!['\''] + replace_all(s, seq!['\''], "'\\''"@) + seq!['\'']
    }
}

/// `command_arg`: an argument quoted for a shell where needed.
pub fn command_arg(value: &str) -> (r: String)
    ensures
        r@ == command_arg_spec(value@),
{
    let v = str_chars(value);
    let mut safe = v.len() > 0;
    let mut i: usize = 0;
    while i < v.len()
        invariant
            0 <= i <= v.len(),
            v@ == value@,
            safe == (v.len() > 0 && forall|k: int| 0 <= k < i ==> shell_safe(#[trigger] v@[k])),
        decreases v.len() - i,
    {
        let c = v[i];
        let ok = crate::text::char_is_ascii_alpha(c) || crate::text::char_is_ascii_digit(c) || c == '-' || c == '_'
            || c == '.' || c == '/' || c == ':' || c == '=' || c == '@' || c == '%' || c == '+' || c == ',';
        if !ok {
            safe = false;
        }
        i = i + 1;
    }
    if safe {
        return crate::text::to_string(value);
    }
    proof {
        reveal_strlit("'");
        reveal_strlit("'\\''");
        assert("'"@ =~= seq!['\'']);
        assert(!(value@.len() > 0 && forall|k: int| 0 <= k < value@.len() ==> shell_safe(#[trigger] value@[k])));
    }
    let inner = replace_str(value, "'", "'\\''");
    concat3("'", inner.as_str(), "'")
}

/// The command that shows a sheet's frozen panes.
pub open spec fn freeze_show_spec(file: Seq<char>, sheet_id: u32) -> Seq<char> {
    "ooxml --json xlsx freeze show "@ + command_arg_spec(file) + " --sheet "@ + command_arg_spec(sheet_id_selector(sheet_id))
}

/// `freeze_show_command`: the command that shows a sheet's frozen panes.
pub fn freeze_show_command(file: &str, sheet: &WorkbookSheet) -> (r: String)
    ensures
        r@ == freeze_show_spec(file@, sheet.sheet_id),
{
    let f = command_arg(file);
    let sel = freeze_sheet_selector(sheet);
    let s = command_arg(sel.as_str());
    concat4("ooxml --json xlsx freeze show ", f.as_str(), " --sheet ", s.as_str())
}

} // verus!
