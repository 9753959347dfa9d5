//! The narrow boundary to the template renderer: a backend's output
//! object is handed over as a map of named fields to printable
//! values, and the engine substitutes them into an opaque template.
//! The engine performs no semantic validation; correctness of the
//! substituted code is entirely the backend's responsibility.
//!
//! The engine has no include-depth limit, so a template whose inline
//! partial includes itself recurses without bound and aborts the
//! process.  [`render_output`] therefore refuses, before the call,
//! any template that opens a partial or decorator construct; the
//! check over-approximates the grammar (an opening is `{{`, then
//! optionally `~` or `#`, then `>` or `*`), so nothing the engine
//! would treat as a partial slips through.
use crate::errors::RenderFailure;
use vstd::prelude::*;

verus! {

/// What the template engine produces for a template and a field map:
/// the rendered text, or nothing for a template it refuses.  A fresh
/// registry renders deterministically from these inputs alone, so
/// acceptance and result are both functions of them.
pub uninterp spec fn rendered(template: Seq<char>, fields: Seq<(Seq<char>, Seq<char>)>) -> Option<
    Seq<char>,
>;

/// The field map a field list denotes.
pub open spec fn fields_view(fields: Seq<(String, String)>) -> Seq<(Seq<char>, Seq<char>)> {
    fields.map_values(|p: (String, String)| (p.0@, p.1@))
}

/// Characters that may stand between `{{` and the `>` or `*` of a
/// partial or decorator opening (the grammar allows only `~` and
/// `#`; whitespace is included for margin).
pub open spec fn skip_char(c: char) -> bool {
    c == '~' || c == '#' || c == ' ' || c == '\t' || c == '\n' || c == '\r'
}

/// Position `i` opens a partial or decorator construct: `{{`, then a
/// run of skippable characters, then `>` or `*`.
pub open spec fn partial_open_at(t: Seq<char>, i: int) -> bool {
    0 <= i && i + 1 < t.len() && t[i] == '{' && t[i + 1] == '{' && exists|j: int|
        i + 2 <= j < t.len() && (t[j] == '>' || t[j] == '*') && (forall|k: int|
            i + 2 <= k < j ==> skip_char(t[k]))
}

/// The template contains a partial or decorator construct somewhere.
pub open spec fn has_partial_construct(t: Seq<char>) -> bool {
    exists|i: int| partial_open_at(t, i)
}

/// Decides [`skip_char`].
fn is_skip(c: char) -> (r: bool)
    ensures
        r == skip_char(c),
{
    c == '~' || c == '#' || c == ' ' || c == '\t' || c == '\n' || c == '\r'
}

/// Decides [`has_partial_construct`] by scanning every `{{`.
pub fn template_uses_partials(t: &str) -> (r: bool)
    ensures
        r == has_partial_construct(t@),
{
    let n = t.unicode_len();
    let mut i: usize = 0;
    while i < n
        invariant
            n == t@.len(),
            i <= n,
            forall|p: int| 0 <= p < i ==> !partial_open_at(t@, p),
        decreases n - i,
    {
        if i + 1 < n && t.get_char(i) == '{' && t.get_char(i + 1) == '{' {
            let mut j: usize = i + 2;
            while j < n && is_skip(t.get_char(j))
                invariant
                    n == t@.len(),
                    i + 2 <= j <= n,
                    forall|k: int| i + 2 <= k < j ==> skip_char(t@[k]),
                decreases n - j,
            {
                j = j + 1;
            }
            if j < n && (t.get_char(j) == '>' || t.get_char(j) == '*') {
                proof {
                    assert(partial_open_at(t@, i as int));
                }
                return true;
            }
            proof {
                if partial_open_at(t@, i as int) {
                    let jj = choose|jj: int|
                        i + 2 <= jj < t@.len() && (t@[jj] == '>' || t@[jj] == '*') && (forall|
                            k: int,
                        |
                            i + 2 <= k < jj ==> skip_char(t@[k]));
                    assert(!skip_char('>') && !skip_char('*'));
                    if jj < j {
                        assert(skip_char(t@[jj as int]));
                        assert(false);
                    } else if jj == j {
                        // the scan stopped at j on a character that is
                        // neither `>` nor `*`
                        assert(false);
                    } else {
                        // everything before jj would be skippable, but
                        // the scan stopped at j on a non-skip character
                        // (or ran off the end)
                        assert(j < t@.len());
                        assert(skip_char(t@[j as int]));
                        assert(false);
                    }
                }
            }
        } else {
            proof {
                assert(!partial_open_at(t@, i as int));
            }
        }
        i = i + 1;
    }
    proof {
        if has_partial_construct(t@) {
            let p = choose|p: int| partial_open_at(t@, p);
            assert(0 <= p && p + 1 < t@.len());
            assert(!partial_open_at(t@, p));
        }
    }
    false
}

/// Relies on handlebars::Handlebars::render_template: renders the
/// template string against the field map on a fresh registry.  With
/// only the built-in pure helpers and map data, both acceptance and
/// the rendered text are functions of the template and the fields
/// alone; a refused template yields nothing.  The engine has no
/// include-depth limit, so templates with partial or decorator
/// constructs are excluded by precondition — on them the call may
/// recurse without bound instead of returning.
#[verifier::external_body]
fn render_call(template: &str, fields: &Vec<(String, String)>) -> (r: Option<String>)
    requires
        !has_partial_construct(template@),
    ensures
        r is Some <==> rendered(template@, fields_view(fields@)) is Some,
        r matches Some(s) ==> Some(s@) == rendered(template@, fields_view(fields@)),
{
    let mut m = std::collections::BTreeMap::<String, String>::new();
    for p in fields.iter() {
        m.insert(p.0.clone(), p.1.clone());
    }
    match handlebars::Handlebars::new().render_template(template, &m) {
        Ok(s) => Some(s),
        Err(_) => None,
    }
}

/// Fills a backend's named fields into a template.  Succeeds exactly
/// when the template opens no partial construct and the engine
/// accepts it, and then returns the engine's rendering of exactly
/// these inputs; otherwise the run gets a [`RenderFailure`] and the
/// driver aborts without writing output.
pub fn render_output(template: &str, fields: &Vec<(String, String)>) -> (r: Result<
    String,
    RenderFailure,
>)
    ensures
        r is Ok <==> (!has_partial_construct(template@) && rendered(
            template@,
            fields_view(fields@),
        ) is Some),
        r matches Ok(s) ==> Some(s@) == rendered(template@, fields_view(fields@)),
{
    if template_uses_partials(template) {
        return Err(RenderFailure {  });
    }
    match render_call(template, fields) {
        Some(s) => Ok(s),
        None => Err(RenderFailure {  }),
    }
}

} // verus!
