//! Application errors and their mapping to a numeric code plus localized
//! message: a plain code, a code with named arguments, a wrapped system
//! failure whose cause is never exposed, and a structured validation
//! failure whose per-field text is synthesized from a fixed rule table.

use vstd::prelude::*;
use vstd::string::StrSliceExecFns;
use vstd::string::StringExecFns;
use crate::catalog::Catalog;
use crate::catalog::t;
use crate::catalog::t_spec;
use crate::strutil::assoc_get;
use crate::strutil::assoc_lookup;
use crate::strutil::i32_to_dec_string;
use crate::strutil::int_dec_str;
use crate::strutil::pairs_view;
use crate::strutil::string_eq;

verus! {

/// A structured error: numeric code, message text and named arguments.
#[derive(Debug, Clone, PartialEq)]
pub struct Error {
    pub code: i32,
    pub message: String,
    pub args: Vec<(String, String)>,
}

impl Error {
    /// A bare error carrying only its code.
    pub fn new(code: i32) -> (r: Error)
        ensures
            r.code == code,
            r.message@ == Seq::<char>::empty(),
            r.args@ =~= Seq::<(String, String)>::empty(),
    {
        Error { code, message: String::new(), args: Vec::new() }
    }

    /// The same error with its message replaced.
    pub fn with_message(self, msg: String) -> (r: Error)
        ensures
            r.code == self.code,
            r.message == msg,
            r.args == self.args,
    {
        Error { message: msg, ..self }
    }

    /// The same error with one more named argument appended.
    pub fn with_arg(self, key: String, val: String) -> (r: Error)
        ensures
            r.code == self.code,
            r.message == self.message,
            r.args@ == self.args@.push((key, val)),
    {
        let mut e = self;
        e.args.push((key, val));
        e
    }
}

/// One failed validation rule: its kind (`required`, `length`, `range`,
/// `email`, or anything else), its named parameters rendered as text, and an
/// optional explicit message.
#[derive(Debug, Clone, PartialEq)]
pub struct RuleError {
    pub kind: String,
    pub params: Vec<(String, String)>,
    pub message: Option<String>,
}

/// All failed rules of one field, in order.
#[derive(Debug, Clone, PartialEq)]
pub struct FieldError {
    pub field: String,
    pub rules: Vec<RuleError>,
}

/// A tagged application error, consumed exactly once by the error mapper.
#[derive(Debug)]
pub enum E {
    /// A business error known by its numeric code alone.
    Code(i32),
    /// A business error whose message takes named arguments.
    Msg(i32, Vec<(String, String)>),
    /// An unexpected system failure; the cause text is for the server-side
    /// log only and is never exposed to the caller.
    Sys(String),
    /// A structured validation failure, field by field.
    Val(Vec<FieldError>),
}

/// The text for one bounded rule, driven by its `min`/`max` parameters.
pub open spec fn bounds_detail(
    params: Seq<(Seq<char>, Seq<char>)>,
    between: Seq<char>,
    and_sep: Seq<char>,
    least: Seq<char>,
    most: Seq<char>,
    invalid: Seq<char>,
) -> Seq<char> {
    match (assoc_lookup(params, "min"@), assoc_lookup(params, "max"@)) {
        (Some(mn), Some(mx)) => between + mn + and_sep + mx,
        (Some(mn), None) => least + mn,
        (None, Some(mx)) => most + mx,
        (None, None) => invalid,
    }
}

/// The human-readable text for one failed rule, from the fixed rule table;
/// an unrecognized kind falls back to its explicit message, or to a generic
/// `invalid (<kind>)` text.
pub open spec fn rule_detail(rule: RuleError) -> Seq<char> {
    if rule.kind@ == "required"@ {
        "is required"@
    } else if rule.kind@ == "length"@ {
        bounds_detail(
            pairs_view(rule.params@),
            "length must be between "@,
            " and "@,
            "length must be at least "@,
            "length must be at most "@,
            "length is invalid"@,
        )
    } else if rule.kind@ == "range"@ {
        bounds_detail(
            pairs_view(rule.params@),
            "must be between "@,
            " and "@,
            "must be at least "@,
            "must be at most "@,
            "value is out of range"@,
        )
    } else if rule.kind@ == "email"@ {
        "must be a valid email"@
    } else {
        match rule.message {
            Some(m) => m@,
            None => "invalid ("@ + rule.kind@ + ")"@,
        }
    }
}

/// One synthesized line: the field name, a colon, and the rule's text.
pub open spec fn line_of(field: Seq<char>, rule: RuleError) -> Seq<char> {
    field + ": "@ + rule_detail(rule)
}

/// The lines synthesized for one field's rules, in order.
pub open spec fn field_lines(field: Seq<char>, rules: Seq<RuleError>) -> Seq<Seq<char>>
    decreases rules.len(),
{
    if rules.len() == 0 {
        Seq::empty()
    } else {
        field_lines(field, rules.drop_last()).push(line_of(field, rules.last()))
    }
}

/// The lines synthesized for all fields, field order first, rule order
/// within a field.
pub open spec fn lines_of(fields: Seq<FieldError>) -> Seq<Seq<char>>
    decreases fields.len(),
{
    if fields.len() == 0 {
        Seq::empty()
    } else {
        lines_of(fields.drop_last()) + field_lines(fields.last().field@, fields.last().rules@)
    }
}

/// The lines joined with a separator between them.
pub open spec fn join_spec(lines: Seq<Seq<char>>, sep: Seq<char>) -> Seq<char>
    decreases lines.len(),
{
    if lines.len() == 0 {
        Seq::empty()
    } else if lines.len() == 1 {
        lines[0]
    } else {
        join_spec(lines.drop_last(), sep) + sep + lines.last()
    }
}

/// What the validation formatter returns: the synthesized lines joined with
/// `"; "`, or the plain localized illegal-parameter message when there are
/// no field errors at all.
pub open spec fn format_validation_spec(
    cat: Catalog,
    lang: Seq<char>,
    fields: Seq<FieldError>,
) -> Seq<char> {
    let lines = lines_of(fields);
    if lines.len() == 0 {
        t_spec(cat, lang, int_dec_str(902), Seq::empty())
    } else {
        join_spec(lines, "; "@)
    }
}

fn bounds_detail_exec(
    params: &Vec<(String, String)>,
    between: &str,
    and_sep: &str,
    least: &str,
    most: &str,
    invalid: &str,
) -> (r: String)
    ensures
        r@ == bounds_detail(pairs_view(params@), between@, and_sep@, least@, most@, invalid@),
{
    let min_key = String::from_str("min");
    let max_key = String::from_str("max");
    let mn = assoc_get(params, &min_key);
    let mx = assoc_get(params, &max_key);
    match (mn, mx) {
        (Some(mn), Some(mx)) => {
            let mut out = String::from_str(between);
            out.append(mn.as_str());
            out.append(and_sep);
            out.append(mx.as_str());
            out
        },
        (Some(mn), None) => {
            let mut out = String::from_str(least);
            out.append(mn.as_str());
            out
        },
        (None, Some(mx)) => {
            let mut out = String::from_str(most);
            out.append(mx.as_str());
            out
        },
        (None, None) => String::from_str(invalid),
    }
}

fn rule_detail_exec(rule: &RuleError) -> (r: String)
    ensures
        r@ == rule_detail(*rule),
{
    let required = String::from_str("required");
    let length = String::from_str("length");
    let range = String::from_str("range");
    let email = String::from_str("email");
    if string_eq(&rule.kind, &required) {
        String::from_str("is required")
    } else if string_eq(&rule.kind, &length) {
        bounds_detail_exec(
            &rule.params,
            "length must be between ",
            " and ",
            "length must be at least ",
            "length must be at most ",
            "length is invalid",
        )
    } else if string_eq(&rule.kind, &range) {
        bounds_detail_exec(
            &rule.params,
            "must be between ",
            " and ",
            "must be at least ",
            "must be at most ",
            "value is out of range",
        )
    } else if string_eq(&rule.kind, &email) {
        String::from_str("must be a valid email")
    } else {
        match &rule.message {
            Some(m) => m.clone(),
            None => {
                let mut out = String::from_str("invalid (");
                out.append(rule.kind.as_str());
                out.append(")");
                out
            },
        }
    }
}

fn join_lines(lines: &Vec<String>, sep: &str) -> (r: String)
    ensures
        r@ == join_spec(lines.deep_view(), sep@),
{
    let n = lines.len();
    let mut out = String::new();
    let mut i: usize = 0;
    while i < n
        invariant
            n == lines@.len(),
            i <= n,
            out@ == join_spec(lines.deep_view().take(i as int), sep@),
        decreases n - i,
    {
        if i > 0 {
            out.append(sep);
        }
        out.append(lines[i].as_str());
        proof {
            let lv = lines.deep_view();
            assert(lv.take(i as int + 1).drop_last() =~= lv.take(i as int));
            assert(lv.take(i as int + 1).last() == lv[i as int]);
        }
        i = i + 1;
    }
    proof {
        assert(lines.deep_view().take(n as int) =~= lines.deep_view());
    }
    out
}

/// Synthesizes the validation failure message: one `field: detail` line per
/// (field, rule) pair, joined with `"; "`; with no field errors, the plain
/// localized illegal-parameter message.
pub fn format_validation_errors(cat: &Catalog, lang: &str, fields: &Vec<FieldError>) -> (r:
    String)
    ensures
        r@ == format_validation_spec(*cat, lang@, fields@),
{
    let nf = fields.len();
    let mut lines: Vec<String> = Vec::new();
    let mut i: usize = 0;
    proof {
        assert(fields@.take(0) =~= Seq::<FieldError>::empty());
        assert(lines.deep_view() =~= lines_of(fields@.take(0)));
    }
    while i < nf
        invariant
            nf == fields@.len(),
            i <= nf,
            lines.deep_view() == lines_of(fields@.take(i as int)),
        decreases nf - i,
    {
        let nr = fields[i].rules.len();
        let mut j: usize = 0;
        while j < nr
            invariant
                nf == fields@.len(),
                i < nf,
                nr == fields@[i as int].rules@.len(),
                j <= nr,
                lines.deep_view() == lines_of(fields@.take(i as int)) + field_lines(
                    fields@[i as int].field@,
                    fields@[i as int].rules@.take(j as int),
                ),
            decreases nr - j,
        {
            let detail = rule_detail_exec(&fields[i].rules[j]);
            let mut line = fields[i].field.clone();
            line.append(": ");
            line.append(detail.as_str());
            let ghost l0 = lines.deep_view();
            lines.push(line);
            proof {
                let rules = fields@[i as int].rules@;
                assert(rules.take(j as int + 1).drop_last() =~= rules.take(j as int));
                assert(rules.take(j as int + 1).last() == rules[j as int]);
                assert(lines.deep_view() =~= l0.push(line_of(fields@[i as int].field@, rules[
                    j as int
                ])));
                assert(lines.deep_view() =~= lines_of(fields@.take(i as int)) + field_lines(
                    fields@[i as int].field@,
                    rules.take(j as int + 1),
                ));
            }
            j = j + 1;
        }
        proof {
            assert(fields@[i as int].rules@.take(nr as int) =~= fields@[i as int].rules@);
            assert(fields@.take(i as int + 1).drop_last() =~= fields@.take(i as int));
            assert(fields@.take(i as int + 1).last() == fields@[i as int]);
            assert(lines.deep_view() =~= lines_of(fields@.take(i as int + 1)));
        }
        i = i + 1;
    }
    proof {
        assert(fields@.take(nf as int) =~= fields@);
    }
    if lines.len() == 0 {
        let key = i32_to_dec_string(902);
        let empty_args: Vec<(String, String)> = Vec::new();
        proof {
            assert(pairs_view(empty_args@) =~= Seq::<(Seq<char>, Seq<char>)>::empty());
        }
        t(cat, lang, key.as_str(), &empty_args)
    } else {
        join_lines(&lines, "; ")
    }
}

/// The code and localized message an error maps to.
pub open spec fn map_err_spec(cat: Catalog, lang: Seq<char>, e: E) -> (i32, Seq<char>) {
    match e {
        E::Code(c) => (c, t_spec(cat, lang, int_dec_str(c as int), Seq::empty())),
        E::Msg(c, params) => (c, t_spec(cat, lang, int_dec_str(c as int), pairs_view(params@))),
        E::Sys(_) => (500, t_spec(cat, lang, int_dec_str(500), Seq::empty())),
        E::Val(fields) => (902, format_validation_spec(cat, lang, fields@)),
    }
}

/// Maps an application error to its numeric code and localized message. A
/// system failure maps to the fixed internal-error code with its cause kept
/// out of the message (the caller logs the cause before handing it here);
/// a validation failure maps to the fixed illegal-parameter code.
pub fn map_err(cat: &Catalog, lang: &str, e: E) -> (r: (i32, String))
    ensures
        r.0 == map_err_spec(*cat, lang@, e).0,
        r.1@ == map_err_spec(*cat, lang@, e).1,
{
    let empty_args: Vec<(String, String)> = Vec::new();
    proof {
        assert(pairs_view(empty_args@) =~= Seq::<(Seq<char>, Seq<char>)>::empty());
    }
    match e {
        E::Code(c) => {
            let key = i32_to_dec_string(c);
            (c, t(cat, lang, key.as_str(), &empty_args))
        },
        E::Msg(c, params) => {
            let key = i32_to_dec_string(c);
            (c, t(cat, lang, key.as_str(), &params))
        },
        E::Sys(_) => {
            let key = i32_to_dec_string(500);
            (500, t(cat, lang, key.as_str(), &empty_args))
        },
        E::Val(fields) => (902, format_validation_errors(cat, lang, &fields)),
    }
}

} // verus!
