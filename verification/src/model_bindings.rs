//! Model bindings: a configured constant or bound of a model check must equal the
//! `pure val` the Quint model declares for it.

use vstd::prelude::*;
use crate::adr::strs;
use crate::quint::{CompletionSemantics, ModelCheckDefinition, ModelCheckOutcome, outcome_is};
use crate::evidence::VerificationStatus;
use crate::text::{chars_of, first_index_of, is_trim_ws, is_trim_ws_exec, own, slice_string, str_eq, trim};

verus! {

/// A configured value as the definition's JSON holds it; a number is held as the
/// text JSON gives it.
#[derive(Debug)]
pub enum ConfigValue {
    Null,
    Bool(bool),
    Number(String),
    Text(String),
    Array(Vec<ConfigValue>),
    Object,
}

/// The JSON string literal of a text, as `serde_json` writes it, if it writes one.
pub uninterp spec fn json_string_literal(s: Seq<char>) -> Option<Seq<char>>;

/// `serde_json::to_string` on a string slice: its JSON string literal (quoted and
/// escaped), a function of the text alone.
#[verifier::external_body]
fn json_quoted(s: &str) -> (r: Option<String>)
    ensures
        match r {
            Some(t) => json_string_literal(s@) == Some(t@),
            None => json_string_literal(s@) is None,
        },
{
    serde_json::to_string(s).ok()
}

/// The items joined with `, `.
pub open spec fn join_comma_space(s: Seq<Seq<char>>) -> Seq<char>
    decreases s.len(),
{
    if s.len() == 0 {
        Seq::empty()
    } else if s.len() == 1 {
        s[0]
    } else {
        join_comma_space(s.drop_last()) + ", "@ + s.last()
    }
}

pub open spec fn unsupported_value() -> Seq<char> {
    "only booleans, numbers, strings, and arrays are supported"@
}

/// The Quint literal of a configured value: `true`/`false`, the number's text, the
/// JSON string literal, or `Set(..)` of the items' literals; null and objects have
/// none. The first item without a literal decides the error.
pub open spec fn literal_of(v: ConfigValue) -> Result<Seq<char>, Seq<char>>
    decreases v, 0int,
{
    match v {
        ConfigValue::Bool(b) => Ok(if b { "true"@ } else { "false"@ }),
        ConfigValue::Number(n) => Ok(n@),
        ConfigValue::Text(s) => match json_string_literal(s@) {
            Some(t) => Ok(t),
            None => Err("invalid string"@),
        },
        ConfigValue::Array(items) => {
            proof {
                assert(decreases_to!(v => items));
                assert(decreases_to!(items => items@));
            }
            match items_literal(items@, items@.len() as int) {
                Ok(parts) => Ok("Set("@ + join_comma_space(parts) + ")"@),
                Err(e) => Err(e),
            }
        },
        ConfigValue::Null => Err(unsupported_value()),
        ConfigValue::Object => Err(unsupported_value()),
    }
}

/// The literals of the first `k` items, or the error of the first that has none.
pub open spec fn items_literal(s: Seq<ConfigValue>, k: int) -> Result<Seq<Seq<char>>, Seq<char>>
    decreases s, k,
{
    if k <= 0 || k > s.len() {
        Ok(Seq::empty())
    } else {
        match items_literal(s, k - 1) {
            Err(e) => Err(e),
            Ok(parts) => match literal_of(s[k - 1]) {
                Ok(t) => Ok(parts.push(t)),
                Err(e) => Err(e),
            },
        }
    }
}

/// Once an item has no literal, neither has any longer prefix.
proof fn lemma_items_error(s: Seq<ConfigValue>, i: int, k: int)
    requires
        0 <= i < k <= s.len(),
        items_literal(s, i) is Ok,
        literal_of(s[i]) is Err,
    ensures
        items_literal(s, k) == Err::<Seq<Seq<char>>, Seq<char>>(literal_of(s[i])->Err_0),
    decreases k,
{
    if k > i + 1 {
        lemma_items_error(s, i, k - 1);
    }
}

/// Renders a configured value as a Quint literal (see `literal_of`).
pub fn quint_literal(v: &ConfigValue) -> (r: Result<String, String>)
    ensures
        match literal_of(*v) {
            Ok(t) => r matches Ok(x) && x@ == t,
            Err(e) => r matches Err(x) && x@ == e,
        },
    decreases v,
{
    proof {
        reveal_strlit("true");
        reveal_strlit("false");
    }
    match v {
        ConfigValue::Bool(b) => Ok(if *b { own("true") } else { own("false") }),
        ConfigValue::Number(n) => Ok(n.clone()),
        ConfigValue::Text(s) => match json_quoted(s.as_str()) {
            Some(t) => Ok(t),
            None => Err(own("invalid string")),
        },
        ConfigValue::Array(items) => {
            let mut parts: Vec<String> = Vec::new();
            proof {
                assert(strs(parts@) =~= Seq::<Seq<char>>::empty());
            }
            let mut i: usize = 0;
            while i < items.len()
                invariant
                    i <= items@.len(),
                    *v == ConfigValue::Array(*items),
                    items_literal(items@, i as int) == Ok::<Seq<Seq<char>>, Seq<char>>(strs(parts@)),
                decreases items.len() - i,
            {
                proof {
                    assert(decreases_to!(*v => *items));
                    assert(decreases_to!(*items => items@));
                    assert(decreases_to!(items@ => items@[i as int]));
                }
                match quint_literal(&items[i]) {
                    Ok(t) => {
                        let ghost p0 = parts@;
                        parts.push(t);
                        proof {
                            assert(strs(parts@) =~= strs(p0).push(t@));
                        }
                    },
                    Err(e) => {
                        proof {
                            lemma_items_error(items@, i as int, items@.len() as int);
                        }
                        return Err(e);
                    },
                }
                i = i + 1;
            }
            let mut out = own("Set(");
            let mut k: usize = 0;
            while k < parts.len()
                invariant
                    k <= parts@.len(),
                    out@ == "Set("@ + join_comma_space(strs(parts@.take(k as int))),
                decreases parts.len() - k,
            {
                proof {
                    assert(strs(parts@.take(k + 1)).drop_last() =~= strs(parts@.take(k as int)));
                    assert(strs(parts@.take(k + 1)).last() == parts@[k as int]@);
                }
                if k > 0 {
                    out.append(", ");
                }
                out.append(parts[k].as_str());
                proof {
                    if k == 0 {
                        assert(strs(parts@.take(1)) =~= seq![parts@[0]@]);
                    }
                }
                k = k + 1;
            }
            proof {
                assert(parts@.take(parts@.len() as int) =~= parts@);
            }
            out.append(")");
            Ok(out)
        },
        ConfigValue::Null => Err(own("only booleans, numbers, strings, and arrays are supported")),
        ConfigValue::Object => Err(own("only booleans, numbers, strings, and arrays are supported")),
    }
}

// ---------------------------------------------------------------------------
// The model's `pure val` declarations
// ---------------------------------------------------------------------------

/// The value of the first line from `k` on that, trimmed, starts with `prefix`:
/// the rest of that line, trimmed.
pub open spec fn value_after(ls: Seq<Seq<char>>, prefix: Seq<char>, k: int) -> Option<Seq<char>>
    decreases ls.len() - k,
{
    if k < 0 || k >= ls.len() {
        None
    } else {
        let t = trim(ls[k]);
        if prefix.len() <= t.len() && t.subrange(0, prefix.len() as int) == prefix {
            Some(trim(t.subrange(prefix.len() as int, t.len() as int)))
        } else {
            value_after(ls, prefix, k + 1)
        }
    }
}

/// What the model declares as `pure val name = ...`, on the first line that does.
pub open spec fn pure_value_of(model: Seq<char>, name: Seq<char>) -> Option<Seq<char>> {
    value_after(crate::document::lines_from(model, 0), "pure val "@ + name + " ="@, 0)
}

fn pure_value(model: &str, name: &str) -> (r: Option<String>)
    ensures
        match pure_value_of(model@, name@) {
            Some(v) => r matches Some(x) && x@ == v,
            None => r is None,
        },
{
    let prefix = crate::text::cat3("pure val ", name, " =");
    let ls = crate::document::lines(model);
    let ghost lv = ls@.map_values(|l: String| l@);
    let mut k: usize = 0;
    while k < ls.len()
        invariant
            k <= ls@.len(),
            lv == ls@.map_values(|l: String| l@),
            lv == crate::document::lines_from(model@, 0),
            prefix@ == "pure val "@ + name@ + " ="@,
            value_after(lv, prefix@, 0) == value_after(lv, prefix@, k as int),
        decreases ls.len() - k,
    {
        let t = crate::text::trim_string(ls[k].as_str());
        proof {
            assert(lv[k as int] == ls@[k as int]@);
        }
        if crate::text::starts_with(t.as_str(), prefix.as_str()) {
            let tc = chars_of(t.as_str());
            let pc = chars_of(prefix.as_str());
            let rest = slice_string(&tc, pc.len(), tc.len());
            proof {
                assert(t@ == trim(lv[k as int]));
                assert(rest@ == t@.subrange(prefix@.len() as int, t@.len() as int));
                assert(value_after(lv, prefix@, k as int) == Some(trim(rest@)));
                assert(pure_value_of(model@, name@) == value_after(lv, prefix@, 0));
            }
            return Some(crate::text::trim_string(rest.as_str()));
        }
        k = k + 1;
    }
    None
}

/// The text without its whitespace.
pub open spec fn compact(s: Seq<char>) -> Seq<char>
    decreases s.len(),
{
    if s.len() == 0 {
        Seq::empty()
    } else if is_trim_ws(s.last()) {
        compact(s.drop_last())
    } else {
        compact(s.drop_last()).push(s.last())
    }
}

fn same_compact(a: &str, b: &str) -> (r: bool)
    ensures
        r == (compact(a@) == compact(b@)),
{
    let ac = compact_chars(a);
    let bc = compact_chars(b);
    crate::text::chars_eq(&ac, &bc)
}

fn compact_chars(a: &str) -> (r: Vec<char>)
    ensures
        r@ == compact(a@),
{
    let s = chars_of(a);
    let mut out: Vec<char> = Vec::new();
    let mut i: usize = 0;
    while i < s.len()
        invariant
            i <= s@.len(),
            s@ == a@,
            out@ == compact(s@.take(i as int)),
        decreases s.len() - i,
    {
        proof {
            assert(s@.take(i + 1).drop_last() =~= s@.take(i as int));
            assert(s@.take(i + 1).last() == s@[i as int]);
        }
        if !is_trim_ws_exec(s[i]) {
            out.push(s[i]);
        }
        i = i + 1;
    }
    proof {
        assert(s@.take(s@.len() as int) =~= s@);
    }
    out
}

// ---------------------------------------------------------------------------
// Checking the bindings
// ---------------------------------------------------------------------------

/// The value of the first entry named `name`.
pub open spec fn value_named(s: Seq<(String, ConfigValue)>, name: Seq<char>, k: int) -> Option<ConfigValue>
    decreases s.len() - k,
{
    if k < 0 || k >= s.len() {
        None
    } else if s[k].0@ == name {
        Some(s[k].1)
    } else {
        value_named(s, name, k + 1)
    }
}

/// The configured value a selector names: `constants.NAME` or `bounds.NAME`.
pub open spec fn selected(constants: Seq<(String, ConfigValue)>, bounds: Seq<(String, ConfigValue)>, sel: Seq<char>) -> Option<ConfigValue> {
    match first_index_of(sel, '.', 0, sel.len() as int) {
        None => None,
        Some(j) => {
            let group = sel.subrange(0, j);
            let name = sel.subrange(j + 1, sel.len() as int);
            if group == "constants"@ {
                value_named(constants, name, 0)
            } else if group == "bounds"@ {
                value_named(bounds, name, 0)
            } else {
                None
            }
        },
    }
}

/// The problem with one binding of `sel` to the Quint name `qname`, if any.
pub open spec fn binding_problem(
    model_path: Seq<char>,
    constants: Seq<(String, ConfigValue)>,
    bounds: Seq<(String, ConfigValue)>,
    model: Seq<char>,
    sel: Seq<char>,
    qname: Seq<char>,
) -> Option<Seq<char>> {
    match selected(constants, bounds, sel) {
        None => Some("model binding `"@ + sel + "` does not select a configured constant or bound"@),
        Some(v) => match literal_of(v) {
            Err(e) => Some("model binding `"@ + sel + "` cannot be represented in Quint: "@ + e),
            Ok(expected) => match pure_value_of(model, qname) {
                None => Some("model binding `"@ + sel + "` requires `pure val "@ + qname + " = ...` in "@ + model_path),
                Some(observed) => if compact(observed) != compact(expected) {
                    Some("model binding mismatch for `"@ + sel + "`: configuration requires `"@ + expected + "`, but `"@ + qname
                        + "` is `"@ + observed + "`"@)
                } else {
                    None
                },
            },
        },
    }
}

/// The problem of the first binding from `k` on that has one.
pub open spec fn bindings_problem(
    d: ModelCheckDefinition,
    constants: Seq<(String, ConfigValue)>,
    bounds: Seq<(String, ConfigValue)>,
    model: Seq<char>,
    k: int,
) -> Option<Seq<char>>
    decreases d.model_bindings@.len() - k,
{
    if k < 0 || k >= d.model_bindings@.len() {
        None
    } else {
        match binding_problem(d.model@, constants, bounds, model, d.model_bindings@[k].0@, d.model_bindings@[k].1@) {
            Some(p) => Some(p),
            None => bindings_problem(d, constants, bounds, model, k + 1),
        }
    }
}

fn value_named_exec<'a>(s: &'a Vec<(String, ConfigValue)>, name: &str) -> (r: Option<&'a ConfigValue>)
    ensures
        match value_named(s@, name@, 0) {
            Some(v) => r matches Some(x) && *x == v,
            None => r is None,
        },
{
    let mut k: usize = 0;
    while k < s.len()
        invariant
            k <= s@.len(),
            value_named(s@, name@, 0) == value_named(s@, name@, k as int),
        decreases s.len() - k,
    {
        if str_eq(s[k].0.as_str(), name) {
            return Some(&s[k].1);
        }
        k = k + 1;
    }
    None
}

fn selected_exec<'a>(constants: &'a Vec<(String, ConfigValue)>, bounds: &'a Vec<(String, ConfigValue)>, sel: &str) -> (r: Option<&'a ConfigValue>)
    ensures
        match selected(constants@, bounds@, sel@) {
            Some(v) => r matches Some(x) && *x == v,
            None => r is None,
        },
{
    proof {
        reveal_strlit("constants");
        reveal_strlit("bounds");
    }
    let sc = chars_of(sel);
    match crate::text::find_char(&sc, '.', 0, sc.len()) {
        None => None,
        Some(j) => {
            let group = slice_string(&sc, 0, j);
            let name = slice_string(&sc, j + 1, sc.len());
            if str_eq(group.as_str(), "constants") {
                value_named_exec(constants, name.as_str())
            } else if str_eq(group.as_str(), "bounds") {
                value_named_exec(bounds, name.as_str())
            } else {
                None
            }
        },
    }
}

fn binding_problem_exec(
    model_path: &str,
    constants: &Vec<(String, ConfigValue)>,
    bounds: &Vec<(String, ConfigValue)>,
    model: &str,
    sel: &str,
    qname: &str,
) -> (r: Option<String>)
    ensures
        match binding_problem(model_path@, constants@, bounds@, model@, sel@, qname@) {
            Some(p) => r matches Some(x) && x@ == p,
            None => r is None,
        },
{
    let v = match selected_exec(constants, bounds, sel) {
        None => {
            return Some(crate::text::cat3("model binding `", sel, "` does not select a configured constant or bound"));
        },
        Some(v) => v,
    };
    let expected = match quint_literal(v) {
        Err(e) => {
            let mut m = crate::text::cat3("model binding `", sel, "` cannot be represented in Quint: ");
            m.append(e.as_str());
            return Some(m);
        },
        Ok(t) => t,
    };
    let observed = match pure_value(model, qname) {
        None => {
            let mut m = crate::text::cat3("model binding `", sel, "` requires `pure val ");
            m.append(qname);
            m.append(" = ...` in ");
            m.append(model_path);
            return Some(m);
        },
        Some(o) => o,
    };
    if !same_compact(observed.as_str(), expected.as_str()) {
        let mut m = crate::text::cat3("model binding mismatch for `", sel, "`: configuration requires `");
        m.append(expected.as_str());
        m.append("`, but `");
        m.append(qname);
        m.append("` is `");
        m.append(observed.as_str());
        m.append("`");
        return Some(m);
    }
    None
}

/// Checks each model binding in turn: its selector must name a configured constant
/// or bound, that value must have a Quint literal, the model text must declare
/// `pure val NAME = ...`, and that value must equal the literal up to whitespace.
/// The first binding that fails gives the error.
pub fn validate_model_bindings(
    definition: &ModelCheckDefinition,
    constants: &Vec<(String, ConfigValue)>,
    bounds: &Vec<(String, ConfigValue)>,
    model: &str,
) -> (r: Result<(), String>)
    ensures
        match bindings_problem(*definition, constants@, bounds@, model@, 0) {
            Some(p) => r matches Err(x) && x@ == p,
            None => r is Ok,
        },
{
    let mut k: usize = 0;
    while k < definition.model_bindings.len()
        invariant
            k <= definition.model_bindings@.len(),
            bindings_problem(*definition, constants@, bounds@, model@, 0) == bindings_problem(*definition, constants@, bounds@, model@, k as int),
        decreases definition.model_bindings.len() - k,
    {
        let (sel, qname) = (&definition.model_bindings[k].0, &definition.model_bindings[k].1);
        match binding_problem_exec(definition.model.as_str(), constants, bounds, model, sel.as_str(), qname.as_str()) {
            Some(p) => return Err(p),
            None => {},
        }
        k = k + 1;
    }
    Ok(())
}

/// A check whose bindings fail ends as an infrastructure error, with the binding
/// problem as its one diagnostic and the pinned backend version.
pub fn binding_failure_outcome(d: &ModelCheckDefinition, problem: String) -> (o: ModelCheckOutcome)
    ensures
        outcome_is(o, CompletionSemantics::InfrastructureError, VerificationStatus::Error, d.backend_version@, Seq::empty(), seq![problem@]),
{
    let mut diagnostics: Vec<String> = Vec::new();
    diagnostics.push(problem);
    let counterexample: Vec<String> = Vec::new();
    proof {
        assert(strs(diagnostics@) =~= seq![problem@]);
        assert(strs(counterexample@) =~= Seq::<Seq<char>>::empty());
    }
    ModelCheckOutcome {
        completion: CompletionSemantics::InfrastructureError,
        status: VerificationStatus::Error,
        backend_version: own(d.backend_version.as_str()),
        counterexample,
        diagnostics,
    }
}

} // verus!
