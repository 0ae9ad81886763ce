//! Number formats: the presets the format commands offer and the codes and
//! ids they stand for.
use vstd::prelude::*;
use crate::error::{CliError, CliResult, ErrorKind};
use crate::model::{builtin_code_spec, builtin_num_format_code};
use crate::text::{ascii_lower_seq, concat2, concat3, replace_all, replace_str, to_string, trim, trim_lower, trim_string};

verus! {

/// A number format chosen for cells: the preset it came from, its code, its
/// id (0 for a custom code, which gets an id when it is added to the styles),
/// and whether it is built in.
#[derive(Debug)]
pub struct XlsxNumberFormatSpec {
    pub preset: String,
    pub format_code: String,
    pub number_format_id: u32,
    pub builtin: bool,
}

pub open spec fn numfmt_view(s: XlsxNumberFormatSpec) -> (Seq<char>, Seq<char>, u32, bool) {
    (s.preset@, s.format_code@, s.number_format_id, s.builtin)
}

/// The format of a built-in id under a preset name.
pub open spec fn builtin_spec(preset: Seq<char>, id: u32) -> Result<(Seq<char>, Seq<char>, u32, bool), ErrorKind> {
    match builtin_code_spec(id) {
        Some(c) => Ok((preset, c, id, true)),
        None => Err(ErrorKind::Unexpected),
    }
}

/// `builtin_xlsx_number_format_spec`: a built-in format by its id.
pub fn builtin_xlsx_number_format_spec(preset: &str, number_format_id: u32) -> (r: CliResult<XlsxNumberFormatSpec>)
    ensures
        r is Ok <==> builtin_spec(preset@, number_format_id) is Ok,
        r is Ok ==> numfmt_view(r->Ok_0) == builtin_spec(preset@, number_format_id)->Ok_0,
        r is Err ==> r->Err_0.kind == ErrorKind::Unexpected,
{
    match builtin_num_format_code(number_format_id) {
        None => Err(CliError::unexpected(to_string("unknown built-in number format id"))),
        Some(code) => Ok(XlsxNumberFormatSpec {
            preset: to_string(preset),
            format_code: to_string(code),
            number_format_id,
            builtin: true,
        }),
    }
}

/// `custom_xlsx_number_format_spec`: a custom format code.
pub fn custom_xlsx_number_format_spec(preset: &str, code: &str) -> (r: CliResult<XlsxNumberFormatSpec>)
    ensures
        r is Ok,
        numfmt_view(r->Ok_0) == (preset@, code@, 0u32, false),
{
    Ok(XlsxNumberFormatSpec { preset: to_string(preset), format_code: to_string(code), number_format_id: 0, builtin: false })
}

/// `n` zeros.
pub open spec fn zeros(n: nat) -> Seq<char> {
    Seq::new(n, |i: int| '0')
}

/// A code with `decimals` decimal places after `base`.
pub open spec fn fixed_decimal_spec(base: Seq<char>, decimals: int) -> Seq<char> {
    if decimals == 0 {
        base
    } else {
        base + seq!['.'] + zeros(decimals as nat)
    }
}

/// `fixed_decimal_format`: `base` followed by `decimals` decimal places.
pub fn fixed_decimal_format(base: &str, decimals: i64) -> (r: String)
    requires
        0 <= decimals,
    ensures
        r@ == fixed_decimal_spec(base@, decimals as int),
{
    if decimals == 0 {
        return to_string(base);
    }
    let mut out: Vec<char> = crate::text::str_chars(base);
    out.push('.');
    let ghost head = out@;
    let mut i: i64 = 0;
    while i < decimals
        invariant
            0 <= i <= decimals,
            out@ == head + zeros(i as nat),
        decreases decimals - i,
    {
        out.push('0');
        proof {
            assert(out@ =~= head + zeros((i + 1) as nat));
        }
        i = i + 1;
    }
    proof {
        assert(out@ =~= base@ + seq!['.'] + zeros(decimals as nat));
    }
    crate::text::string_from_chars(out.as_slice())
}

/// A text as a quoted literal of a format code (quotes doubled).
pub open spec fn format_literal_spec(value: Seq<char>) -> Seq<char> {
    seq!['"'] + replace_all(value, seq!['"'], seq!['"', '"']) + seq!['"']
}

/// `xlsx_format_literal`: a text quoted for a format code.
pub fn xlsx_format_literal(value: &str) -> (r: String)
    ensures
        r@ == format_literal_spec(value@),
{
    proof {
        reveal_strlit("\"");
        reveal_strlit("\"\"");
    }
    let inner = replace_str(value, "\"", "\"\"");
    proof {
        assert("\""@ =~= seq!['"']);
        assert("\"\""@ =~= seq!['"', '"']);
    }
    concat3("\"", inner.as_str(), "\"")
}

pub open spec fn opt_or_empty(o: Option<&str>) -> Seq<char> {
    match o {
        Some(s) => s@,
        None => Seq::empty(),
    }
}

/// The format a preset or a code chooses, or the kind of the error.
pub open spec fn resolve_numfmt_spec(preset: Option<&str>, format_code: Option<&str>, decimals: i64, currency_symbol: Option<&str>) -> Result<(Seq<char>, Seq<char>, u32, bool), ErrorKind> {
    let p = ascii_lower_seq(trim(opt_or_empty(preset)));
    let code = trim(opt_or_empty(format_code));
    if (p.len() == 0) == (code.len() == 0) {
        Err(ErrorKind::InvalidArgs)
    } else if !(0 <= decimals <= 10) {
        Err(ErrorKind::InvalidArgs)
    } else if code.len() > 0 {
        Ok(("custom"@, code, 0u32, false))
    } else if p == "general"@ {
        builtin_spec("general"@, 0)
    } else if p == "integer"@ {
        builtin_spec("integer"@, 3)
    } else if p == "number"@ {
        if decimals == 0 {
            builtin_spec("number"@, 3)
        } else if decimals == 2 {
            builtin_spec("number"@, 4)
        } else {
            Ok(("number"@, fixed_decimal_spec("#,##0"@, decimals as int), 0u32, false))
        }
    } else if p == "percent"@ {
        if decimals == 0 {
            builtin_spec("percent"@, 9)
        } else if decimals == 2 {
            builtin_spec("percent"@, 10)
        } else {
            Ok(("percent"@, fixed_decimal_spec("0"@, decimals as int) + seq!['%'], 0u32, false))
        }
    } else if p == "currency"@ {
        let symbol = match currency_symbol {
            Some(s) => s@,
            None => "$"@,
        };
        Ok(("currency"@, format_literal_spec(symbol) + fixed_decimal_spec("#,##0"@, decimals as int), 0u32, false))
    } else if p == "date"@ {
        Ok(("date"@, "yyyy-mm-dd"@, 0u32, false))
    } else if p == "datetime"@ {
        Ok(("datetime"@, "yyyy-mm-dd h:mm"@, 0u32, false))
    } else if p == "text"@ {
        builtin_spec("text"@, 49)
    } else {
        Err(ErrorKind::InvalidArgs)
    }
}

proof fn lemma_preset_names_differ()
    ensures
        "percent"@ != "general"@,
        "percent"@ != "integer"@,
        "percent"@ != "number"@,
        "number"@ != "general"@,
        "number"@ != "integer"@,
        "percent"@.len() > 0,
        "number"@.len() > 0,
{
    reveal_strlit("percent");
    reveal_strlit("general");
    reveal_strlit("integer");
    reveal_strlit("number");
    assert("percent"@[0] == 'p' && "general"@[0] == 'g' && "integer"@[0] == 'i');
    assert("number"@.len() == 6 && "percent"@.len() == 7 && "general"@.len() == 7 && "integer"@.len() == 7);
}

/// A number or percent preset writes exactly the decimal places asked for:
/// the chosen code is `#,##0` (number) or `0` followed by `%` (percent) with
/// `decimals` zeros after a decimal point, whether a built-in format or a
/// custom code carries it; and a built-in choice's code is the code of its
/// id.
pub proof fn lemma_preset_keeps_decimals(
    preset: Option<&str>,
    format_code: Option<&str>,
    decimals: i64,
    currency_symbol: Option<&str>,
)
    requires
        trim(opt_or_empty(format_code)).len() == 0,
        0 <= decimals <= 10,
    ensures
        ascii_lower_seq(trim(opt_or_empty(preset))) == "percent"@ ==> (resolve_numfmt_spec(preset, format_code, decimals, currency_symbol)
            matches Ok(v) && v.0 == "percent"@ && v.1 == fixed_decimal_spec("0"@, decimals as int) + seq!['%']),
        ascii_lower_seq(trim(opt_or_empty(preset))) == "number"@ ==> (resolve_numfmt_spec(preset, format_code, decimals, currency_symbol)
            matches Ok(v) && v.0 == "number"@ && v.1 == fixed_decimal_spec("#,##0"@, decimals as int)),
        resolve_numfmt_spec(preset, format_code, decimals, currency_symbol) is Ok && resolve_numfmt_spec(preset, format_code, decimals, currency_symbol)->Ok_0.3
            ==> builtin_code_spec(resolve_numfmt_spec(preset, format_code, decimals, currency_symbol)->Ok_0.2)
            == Some(resolve_numfmt_spec(preset, format_code, decimals, currency_symbol)->Ok_0.1),
{
    lemma_preset_names_differ();
    reveal_strlit("0");
    reveal_strlit("0%");
    reveal_strlit("0.00%");
    reveal_strlit("#,##0");
    reveal_strlit("#,##0.00");
    assert("0%"@ =~= fixed_decimal_spec("0"@, 0) + seq!['%']);
    assert("0.00%"@ =~= fixed_decimal_spec("0"@, 2) + seq!['%']);
    assert("#,##0.00"@ =~= fixed_decimal_spec("#,##0"@, 2));
}

/// `resolve_xlsx_number_format`: the number format a preset (with decimal
/// places and a currency symbol) or a custom code chooses.
pub fn resolve_xlsx_number_format(preset: Option<&str>, format_code: Option<&str>, decimals: i64, currency_symbol: Option<&str>) -> (r: CliResult<XlsxNumberFormatSpec>)
    ensures
        r is Ok <==> resolve_numfmt_spec(preset, format_code, decimals, currency_symbol) is Ok,
        r is Ok ==> numfmt_view(r->Ok_0) == resolve_numfmt_spec(preset, format_code, decimals, currency_symbol)->Ok_0,
        r is Err ==> resolve_numfmt_spec(preset, format_code, decimals, currency_symbol) == Err::<(Seq<char>, Seq<char>, u32, bool), ErrorKind>(r->Err_0.kind),
{
    let p = match preset {
        Some(s) => trim_lower(s),
        None => trim_lower(""),
    };
    let code = match format_code {
        Some(s) => trim_string(s),
        None => trim_string(""),
    };
    proof {
        reveal_strlit("");
    }
    if (p.len() == 0) == (code.unicode_len() == 0) {
        return Err(CliError::invalid_args(to_string("specify exactly one of preset or format code")));
    }
    if !(0 <= decimals && decimals <= 10) {
        return Err(CliError::invalid_args(to_string("decimals must be between 0 and 10")));
    }
    if code.unicode_len() > 0 {
        return Ok(XlsxNumberFormatSpec { preset: to_string("custom"), format_code: code, number_format_id: 0, builtin: false });
    }
    let eq = |w: &str| -> (b: bool)
        ensures
            b == (p@ == w@),
        { crate::text::chars_eq_str(&p, w) };
    if eq("general") {
        builtin_xlsx_number_format_spec("general", 0)
    } else if eq("integer") {
        builtin_xlsx_number_format_spec("integer", 3)
    } else if eq("number") {
        if decimals == 0 {
            builtin_xlsx_number_format_spec("number", 3)
        } else if decimals == 2 {
            builtin_xlsx_number_format_spec("number", 4)
        } else {
            let c = fixed_decimal_format("#,##0", decimals);
            custom_xlsx_number_format_spec("number", c.as_str())
        }
    } else if eq("percent") {
        if decimals == 0 {
            builtin_xlsx_number_format_spec("percent", 9)
        } else if decimals == 2 {
            builtin_xlsx_number_format_spec("percent", 10)
        } else {
            let c = fixed_decimal_format("0", decimals);
            let c2 = concat2(c.as_str(), "%");
            proof {
                reveal_strlit("%");
            }
            custom_xlsx_number_format_spec("percent", c2.as_str())
        }
    } else if eq("currency") {
        let symbol = match currency_symbol {
            Some(s) => s,
            None => "$",
        };
        let lit = xlsx_format_literal(symbol);
        let c = fixed_decimal_format("#,##0", decimals);
        let code = concat2(lit.as_str(), c.as_str());
        custom_xlsx_number_format_spec("currency", code.as_str())
    } else if eq("date") {
        custom_xlsx_number_format_spec("date", "yyyy-mm-dd")
    } else if eq("datetime") {
        custom_xlsx_number_format_spec("datetime", "yyyy-mm-dd h:mm")
    } else if eq("text") {
        builtin_xlsx_number_format_spec("text", 49)
    } else {
        let ps = crate::text::vec_to_string(&p);
        let q = crate::text::debug_quoted(ps.as_str());
        Err(CliError::invalid_args(crate::text::concat3(
            "invalid preset ",
            q.as_str(),
            " (must be integer, number, currency, percent, date, datetime, text, or general)",
        )))
    }
}

} // verus!
