use vstd::prelude::*;

verus! {

/// What a template renders to with the given variables, or `None` where it
/// cannot be rendered (malformed template, a variable that is not given).
pub uninterp spec fn rendered_of(text: Seq<char>, vars: Seq<(Seq<char>, Seq<char>)>) -> Option<
    Seq<char>,
>;

/// Variable names and values as plain sequences.
pub open spec fn vars_view(c: Seq<(String, String)>) -> Seq<(Seq<char>, Seq<char>)> {
    c.map_values(|p: (String, String)| (p.0@, p.1@))
}

/// A template could not be rendered.
#[derive(Debug, PartialEq, Eq)]
pub struct TemplateError {
    pub template: String,
}

/// Relies on handlebars' `Registry::render_template`, in strict mode and
/// without HTML escaping: its output, or its failure, depends on the
/// template text and the variables alone.
#[verifier::external_body]
fn render_template(text: &String, vars: &Vec<(String, String)>) -> (r: Option<String>)
    ensures
        match r {
            Some(s) => rendered_of(text@, vars_view(vars@)) == Some(s@),
            None => rendered_of(text@, vars_view(vars@)) is None,
        },
{
    let mut hb = handlebars::Handlebars::new();
    hb.set_strict_mode(true);
    hb.register_escape_fn(handlebars::no_escape);
    let data: std::collections::BTreeMap<&str, &str> = vars.iter().map(
        |(k, v)| (k.as_str(), v.as_str()),
    ).collect();
    hb.render_template(text, &data).ok()
}

/// Renders `text` with `vars`; a template that cannot be rendered is a
/// `TemplateError` naming it.
pub fn render(text: &String, vars: &Vec<(String, String)>) -> (r: Result<String, TemplateError>)
    ensures
        match rendered_of(text@, vars_view(vars@)) {
            Some(s) => r matches Ok(o) && o@ == s,
            None => r matches Err(e) && e.template@ == text@,
        },
{
    match render_template(text, vars) {
        Some(s) => Ok(s),
        None => Err(TemplateError { template: text.clone() }),
    }
}

} // verus!
