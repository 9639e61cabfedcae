use vstd::prelude::*;

use crate::external::{render_template, tera_error_text, mime_html, mime_text, guess_mime, guessed_mime};
use crate::params::ParamMap;
use crate::response::{Response, ResponseType, response_text};
use crate::status_code::{from_status_code, status_line, INTERNAL_SERVER_ERROR, NOT_FOUND, BAD_REQUEST};

verus! {

/// The header block sent with a response of the given content type.
pub open spec fn response_header(content_type: Seq<char>) -> Seq<char> {
    "Content-Type: "@ + content_type + "\r\n"@
}

/// The text on the wire for a response with these parts.
pub open spec fn full_response_text(
    http_ver: Seq<char>,
    http_status: Seq<char>,
    content_type: Seq<char>,
    body: Seq<char>,
) -> Seq<char> {
    response_text(http_ver, http_status, response_header(content_type), body)
}

/// The response a handler gives when rendering gave `rendered`: the page
/// with the requested status, or a server error with the message.
pub open spec fn html_outcome(status_code: i32, rendered: Result<Seq<char>, Seq<char>>) -> (
    Seq<char>,
    Seq<char>,
) {
    match rendered {
        Ok(html) => (status_line(status_code), html),
        Err(message) => (status_line(INTERNAL_SERVER_ERROR), message + "\n"@),
    }
}

/// The text of a rendering outcome.
pub open spec fn rendered_view(rendered: Result<String, String>) -> Result<Seq<char>, Seq<char>> {
    match rendered {
        Ok(h) => Ok(h@),
        Err(e) => Err(e@),
    }
}

/// What reading a file for a response gave.
pub enum FileRead {
    /// The file could not be opened.
    NotFound,
    /// The file was opened but could not be read; the error's message.
    ReadError(String),
    /// The file's contents.
    Contents(String),
}

/// The parts of a response (status line, content type, body) that are
/// made from a file read.
pub open spec fn file_outcome(status_code: i32, file_path: Seq<char>, read: FileRead) -> (
    Seq<char>,
    Seq<char>,
    Seq<char>,
) {
    match read {
        FileRead::Contents(body) => (
            status_line(status_code),
            match guessed_mime(file_path) {
                Some(t) => t,
                None => "text"@,
            },
            body@,
        ),
        FileRead::ReadError(message) => (status_line(INTERNAL_SERVER_ERROR), "html"@, message@),
        FileRead::NotFound => (status_line(NOT_FOUND), "html"@, "Not Found"@),
    }
}

/// The state of one request as a handler sees it: what was read from the
/// request, and the response it is building.
pub struct RumContext<'a> {
    template_engine: Option<&'a tera::Tera>,
    query_params: ParamMap,
    request_headers: ParamMap,
    form_params: ParamMap,
    url_params: ParamMap,
    request_body: String,
    response: Response,
}

impl<'a> RumContext<'a> {
    /// Every map is well formed.
    pub closed spec fn wf(&self) -> bool {
        &&& self.query_params.wf()
        &&& self.request_headers.wf()
        &&& self.form_params.wf()
        &&& self.url_params.wf()
    }

    pub closed spec fn query_params_view(&self) -> Map<Seq<char>, Seq<char>> {
        self.query_params@
    }

    pub closed spec fn request_headers_view(&self) -> Map<Seq<char>, Seq<char>> {
        self.request_headers@
    }

    pub closed spec fn form_params_view(&self) -> Map<Seq<char>, Seq<char>> {
        self.form_params@
    }

    pub closed spec fn url_params_view(&self) -> Map<Seq<char>, Seq<char>> {
        self.url_params@
    }

    pub closed spec fn request_body_view(&self) -> Seq<char> {
        self.request_body@
    }

    /// The status line, content type and body of the response so far.
    pub closed spec fn response_view(&self) -> (Seq<char>, Seq<char>, Seq<char>) {
        (self.response.http_status@, self.response.content_type@, self.response.response_body@)
    }

    /// Whether the context has a template engine.
    pub closed spec fn has_template_engine(&self) -> bool {
        self.template_engine is Some
    }

    /// A fresh context: nothing read yet, and a `200 OK` page with an empty body.
    pub fn new(template_engine: Option<&'a tera::Tera>) -> (c: RumContext<'a>)
        ensures
            c.wf(),
            c.query_params_view() == Map::<Seq<char>, Seq<char>>::empty(),
            c.request_headers_view() == Map::<Seq<char>, Seq<char>>::empty(),
            c.form_params_view() == Map::<Seq<char>, Seq<char>>::empty(),
            c.url_params_view() == Map::<Seq<char>, Seq<char>>::empty(),
            c.request_body_view() == Seq::<char>::empty(),
            c.response_view() == (status_line(200), "html"@, Seq::<char>::empty()),
            c.has_template_engine() == (template_engine is Some),
    {
        RumContext {
            template_engine,
            query_params: ParamMap::new(),
            request_headers: ParamMap::new(),
            form_params: ParamMap::new(),
            url_params: ParamMap::new(),
            request_body: String::new(),
            response: Response {
                http_status: from_status_code(200),
                content_type: mime_html(),
                response_type: ResponseType::Html,
                response_body: String::new(),
            },
        }
    }

    /// The response for a rendering outcome: the page with `status_code`, or
    /// a server error carrying the message.
    pub fn html_response(status_code: i32, rendered: Result<String, String>) -> (r: Response)
        ensures
            (r.http_status@, r.response_body@) == html_outcome(status_code, rendered_view(rendered)),
            rendered matches Ok(page) ==> r.http_status@ == status_line(status_code) && r.response_body@ == page@,
            rendered matches Err(message) ==> r.http_status@ == status_line(INTERNAL_SERVER_ERROR)
                && r.response_body@ == message@ + "\n"@,
            r.content_type@ == "html"@,
            r.response_type == ResponseType::Html,
    {
        match rendered {
            Ok(html) => Response {
                http_status: from_status_code(status_code),
                content_type: mime_html(),
                response_type: ResponseType::Html,
                response_body: html,
            },
            Err(message) => {
                let mut body = message;
                body.append("\n");
                Response {
                    http_status: from_status_code(INTERNAL_SERVER_ERROR),
                    content_type: mime_html(),
                    response_type: ResponseType::Html,
                    response_body: body,
                }
            },
        }
    }

    /// Renders the template `template_name` with `context` into a page with
    /// status `status_code`; a rendering error gives a server error with its
    /// message, and a context without a template engine gives a server error.
    pub fn html(&self, status_code: i32, template_name: &str, context: &tera::Context) -> (r: Response)
        ensures
            r.content_type@ == "html"@,
            r.response_type == ResponseType::Html,
            !self.has_template_engine() ==> r.http_status@ == status_line(INTERNAL_SERVER_ERROR)
                && r.response_body@ == "Tera template engine not initialized properly"@,
            self.has_template_engine() ==> exists|rendered: Result<Seq<char>, Seq<char>>|
                (r.http_status@, r.response_body@) == html_outcome(status_code, rendered),
    {
        match self.template_engine {
            Some(engine) => {
                let rendered = match render_template(engine, template_name, context) {
                    Ok(html) => Ok(html),
                    Err(e) => Err(tera_error_text(&e)),
                };
                let ghost outcome = rendered_view(rendered);
                let r = Self::html_response(status_code, rendered);
                assert((r.http_status@, r.response_body@) == html_outcome(status_code, outcome));
                r
            },
            None => Response {
                http_status: from_status_code(INTERNAL_SERVER_ERROR),
                content_type: mime_html(),
                response_type: ResponseType::Html,
                response_body: "Tera template engine not initialized properly".to_owned(),
            },
        }
    }

    /// The response for serving the file at `file_path` with `status_code`,
    /// given what reading it gave: the contents typed by the path's
    /// extension (plain text where it has none known), a server error with
    /// the read error's message, or a not-found page.
    pub fn file(&self, status_code: i32, file_path: &str, read: FileRead) -> (r: Response)
        ensures
            (r.http_status@, r.content_type@, r.response_body@) == file_outcome(
                status_code,
                file_path@,
                read,
            ),
            read matches FileRead::Contents(body) ==> r.http_status@ == status_line(status_code)
                && r.response_body@ == body@,
            r.response_type == ResponseType::Html,
    {
        match read {
            FileRead::Contents(body) => Response {
                http_status: from_status_code(status_code),
                content_type: match guess_mime(file_path) {
                    Some(t) => t,
                    None => mime_text(),
                },
                response_type: ResponseType::Html,
                response_body: body,
            },
            FileRead::ReadError(message) => Response {
                http_status: from_status_code(INTERNAL_SERVER_ERROR),
                content_type: mime_html(),
                response_type: ResponseType::Html,
                response_body: message,
            },
            FileRead::NotFound => Response {
                http_status: from_status_code(NOT_FOUND),
                content_type: mime_html(),
                response_type: ResponseType::Html,
                response_body: "Not Found".to_owned(),
            },
        }
    }

    /// Sets the query parameter `key` to `value`.
    pub fn set_query_params(&mut self, key: &str, value: &str)
        requires
            old(self).wf(),
        ensures
            final(self).wf(),
            final(self).query_params_view() == old(self).query_params_view().insert(key@, value@),
            final(self).request_headers_view() == old(self).request_headers_view(),
            final(self).form_params_view() == old(self).form_params_view(),
            final(self).url_params_view() == old(self).url_params_view(),
            final(self).request_body_view() == old(self).request_body_view(),
            final(self).response_view() == old(self).response_view(),
            final(self).has_template_engine() == old(self).has_template_engine(),
    {
        self.query_params.set(key, value);
    }

    /// The query parameter `key`, if the request has it.
    pub fn get_query_params(&self, key: &str) -> (r: Option<&String>)
        requires
            self.wf(),
        ensures
            match r {
                Some(v) => self.query_params_view().contains_key(key@) && self.query_params_view()[key@] == v@,
                None => !self.query_params_view().contains_key(key@),
            },
    {
        self.query_params.get(key)
    }

    /// Sets the request header `key` to `value`.
    pub fn set_request_header(&mut self, key: &str, value: &str)
        requires
            old(self).wf(),
        ensures
            final(self).wf(),
            final(self).request_headers_view() == old(self).request_headers_view().insert(key@, value@),
            final(self).query_params_view() == old(self).query_params_view(),
            final(self).form_params_view() == old(self).form_params_view(),
            final(self).url_params_view() == old(self).url_params_view(),
            final(self).request_body_view() == old(self).request_body_view(),
            final(self).response_view() == old(self).response_view(),
            final(self).has_template_engine() == old(self).has_template_engine(),
    {
        self.request_headers.set(key, value);
    }

    /// The request header `key`, if the request has it.
    pub fn get_request_header(&self, key: &str) -> (r: Option<&String>)
        requires
            self.wf(),
        ensures
            match r {
                Some(v) => self.request_headers_view().contains_key(key@) && self.request_headers_view()[key@] == v@,
                None => !self.request_headers_view().contains_key(key@),
            },
    {
        self.request_headers.get(key)
    }

    /// Sets the form parameter `key` to `value`.
    pub fn set_form_params(&mut self, key: &str, value: &str)
        requires
            old(self).wf(),
        ensures
            final(self).wf(),
            final(self).form_params_view() == old(self).form_params_view().insert(key@, value@),
            final(self).query_params_view() == old(self).query_params_view(),
            final(self).request_headers_view() == old(self).request_headers_view(),
            final(self).url_params_view() == old(self).url_params_view(),
            final(self).request_body_view() == old(self).request_body_view(),
            final(self).response_view() == old(self).response_view(),
            final(self).has_template_engine() == old(self).has_template_engine(),
    {
        self.form_params.set(key, value);
    }

    /// The form parameter `key`, if the request has it.
    pub fn get_form_params(&self, key: &str) -> (r: Option<&String>)
        requires
            self.wf(),
        ensures
            match r {
                Some(v) => self.form_params_view().contains_key(key@) && self.form_params_view()[key@] == v@,
                None => !self.form_params_view().contains_key(key@),
            },
    {
        self.form_params.get(key)
    }

    /// Sets the URL parameter `key` to `value`.
    pub fn set_url_params(&mut self, key: &str, value: &str)
        requires
            old(self).wf(),
        ensures
            final(self).wf(),
            final(self).url_params_view() == old(self).url_params_view().insert(key@, value@),
            final(self).query_params_view() == old(self).query_params_view(),
            final(self).request_headers_view() == old(self).request_headers_view(),
            final(self).form_params_view() == old(self).form_params_view(),
            final(self).request_body_view() == old(self).request_body_view(),
            final(self).response_view() == old(self).response_view(),
            final(self).has_template_engine() == old(self).has_template_engine(),
    {
        self.url_params.set(key, value);
    }

    /// The URL parameter `key`, if the request has it.
    pub fn get_url_params(&self, key: &str) -> (r: Option<&String>)
        requires
            self.wf(),
        ensures
            match r {
                Some(v) => self.url_params_view().contains_key(key@) && self.url_params_view()[key@] == v@,
                None => !self.url_params_view().contains_key(key@),
            },
    {
        self.url_params.get(key)
    }

    /// Sets the body read from the request.
    pub fn set_request_body(&mut self, request_body: String)
        ensures
            final(self).request_body_view() == request_body@,
            final(self).query_params_view() == old(self).query_params_view(),
            final(self).request_headers_view() == old(self).request_headers_view(),
            final(self).form_params_view() == old(self).form_params_view(),
            final(self).url_params_view() == old(self).url_params_view(),
            final(self).response_view() == old(self).response_view(),
            final(self).has_template_engine() == old(self).has_template_engine(),
            final(self).wf() == old(self).wf(),
    {
        self.request_body = request_body;
    }

    /// The body read from the request.
    pub fn get_request_body(&self) -> (r: &String)
        ensures
            r@ == self.request_body_view(),
    {
        &self.request_body
    }

    /// Makes `response` the response to send.
    pub fn set_response(&mut self, response: Response)
        ensures
            final(self).response_view() == (response.http_status@, response.content_type@, response.response_body@),
            final(self).request_body_view() == old(self).request_body_view(),
            final(self).query_params_view() == old(self).query_params_view(),
            final(self).request_headers_view() == old(self).request_headers_view(),
            final(self).form_params_view() == old(self).form_params_view(),
            final(self).url_params_view() == old(self).url_params_view(),
            final(self).has_template_engine() == old(self).has_template_engine(),
            final(self).wf() == old(self).wf(),
    {
        self.response = response;
    }

    /// The response to send for protocol version `http_ver`, with a
    /// `Content-Type` header, and its status line.
    pub fn get_response(&self, http_ver: &str) -> (r: (String, String))
        ensures
            r.0@ == full_response_text(
                http_ver@,
                self.response_view().0,
                self.response_view().1,
                self.response_view().2,
            ),
            r.1@ == self.response_view().0,
    {
        let mut header = "Content-Type: ".to_owned();
        header.append(self.response.content_type.as_str());
        header.append("\r\n");
        self.response.get_response(http_ver, header)
    }

    /// The not-found response for protocol version `http_ver`, and its status line.
    pub fn default_404(&self, http_ver: &str) -> (r: (String, String))
        ensures
            r.0@ == full_response_text(http_ver@, status_line(NOT_FOUND), "html"@, "Not Found"@),
            r.1@ == status_line(NOT_FOUND),
    {
        let response = Response {
            http_status: from_status_code(NOT_FOUND),
            content_type: mime_html(),
            response_type: ResponseType::Html,
            response_body: "Not Found".to_owned(),
        };
        let mut header = "Content-Type: ".to_owned();
        header.append(response.content_type.as_str());
        header.append("\r\n");
        response.get_response(http_ver, header)
    }

    /// The bad-request response for protocol version `http_ver`, and its status line.
    pub fn default_400(&self, http_ver: &str) -> (r: (String, String))
        ensures
            r.0@ == full_response_text(http_ver@, status_line(BAD_REQUEST), "html"@, "Bad Request"@),
            r.1@ == status_line(BAD_REQUEST),
    {
        let response = Response {
            http_status: from_status_code(BAD_REQUEST),
            content_type: mime_html(),
            response_type: ResponseType::Html,
            response_body: "Bad Request".to_owned(),
        };
        let mut header = "Content-Type: ".to_owned();
        header.append(response.content_type.as_str());
        header.append("\r\n");
        response.get_response(http_ver, header)
    }

    /// A context for a request that has been read: its query parameters,
    /// headers, form parameters and body.
    pub(crate) fn from_request(
        template_engine: Option<&'a tera::Tera>,
        query_params: ParamMap,
        request_headers: ParamMap,
        form_params: ParamMap,
        request_body: String,
    ) -> (c: RumContext<'a>)
        requires
            query_params.wf(),
            request_headers.wf(),
            form_params.wf(),
        ensures
            c.wf(),
            c.query_params_view() == query_params@,
            c.request_headers_view() == request_headers@,
            c.form_params_view() == form_params@,
            c.url_params_view() == Map::<Seq<char>, Seq<char>>::empty(),
            c.request_body_view() == request_body@,
            c.response_view() == (status_line(200), "html"@, Seq::<char>::empty()),
            c.has_template_engine() == (template_engine is Some),
    {
        RumContext {
            template_engine,
            query_params,
            request_headers,
            form_params,
            url_params: ParamMap::new(),
            request_body,
            response: Response {
                http_status: from_status_code(200),
                content_type: mime_html(),
                response_type: ResponseType::Html,
                response_body: String::new(),
            },
        }
    }
}

/// A file that was read is served with the status line of the code asked
/// for, whatever that code is, and with its contents unchanged; the content
/// type depends on the path alone, not on the code.
pub proof fn lemma_file_status_and_body(c1: i32, c2: i32, file_path: Seq<char>, body: String)
    ensures
        file_outcome(c1, file_path, FileRead::Contents(body)).0 == status_line(c1),
        file_outcome(c1, file_path, FileRead::Contents(body)).2 == body@,
        file_outcome(c1, file_path, FileRead::Contents(body)).1 == file_outcome(
            c2,
            file_path,
            FileRead::Contents(body),
        ).1,
{
}

} // verus!
