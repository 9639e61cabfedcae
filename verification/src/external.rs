use vstd::prelude::*;

verus! {

/// A template engine of the `tera` crate, carried through opaquely.
#[verifier::external_type_specification]
#[verifier::external_body]
pub struct ExTera(tera::Tera);

/// The variables handed to a `tera` template, carried through opaquely.
#[verifier::external_type_specification]
#[verifier::external_body]
pub struct ExTeraContext(tera::Context);

/// An error of the `tera` crate, carried through opaquely.
#[verifier::external_type_specification]
#[verifier::external_body]
pub struct ExTeraError(tera::Error);

/// Calls `tera::Tera::render`. Nothing is claimed of the outcome: it depends
/// on the templates that the engine loaded from disk, which no value here
/// describes.
#[verifier::external_body]
pub(crate) fn render_template(
    engine: &tera::Tera,
    template_name: &str,
    context: &tera::Context,
) -> Result<String, tera::Error> {
    engine.render(template_name, context)
}

/// The message of a `tera::Error`, as its `Display` impl writes it. Nothing
/// is claimed of the text: the error is opaque here.
#[verifier::external_body]
pub(crate) fn tera_error_text(error: &tera::Error) -> String {
    format!("{}", error)
}

/// `mime::HTML` written out: the `Display` impl of `mime::Name` writes its
/// source text, which is `"html"`.
#[verifier::external_body]
pub(crate) fn mime_html() -> (s: String)
    ensures
        s@ == "html"@,
{
    mime::HTML.to_string()
}

/// `mime::TEXT` written out: its source text is `"text"`.
#[verifier::external_body]
pub(crate) fn mime_text() -> (s: String)
    ensures
        s@ == "text"@,
{
    mime::TEXT.to_string()
}

/// `mime::APPLICATION_WWW_FORM_URLENCODED` written out: the `Display` impl
/// of `mime::Mime` writes its source text,
/// `"application/x-www-form-urlencoded"`.
#[verifier::external_body]
pub(crate) fn mime_form_urlencoded() -> (s: String)
    ensures
        s@ == "application/x-www-form-urlencoded"@,
{
    mime::APPLICATION_WWW_FORM_URLENCODED.to_string()
}

/// The media type that `mime_guess` gives first for a path, written out;
/// it is looked up in a fixed table by the path's extension.
pub uninterp spec fn guessed_mime(path: Seq<char>) -> Option<Seq<char>>;

/// Calls `mime_guess::from_path(path).first()` and writes out the media
/// type: the result is `guessed_mime` of the path.
#[verifier::external_body]
pub(crate) fn guess_mime(path: &str) -> (r: Option<String>)
    ensures
        match r {
            Some(s) => guessed_mime(path@) == Some(s@),
            None => guessed_mime(path@) is None,
        },
{
    match mime_guess::from_path(path).first() {
        Some(m) => Some(m.to_string()),
        None => None,
    }
}

} // verus!
