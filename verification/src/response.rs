use vstd::prelude::*;

verus! {

/// How a response body was produced.
#[derive(PartialEq, Eq, Structural, Clone, Copy, Debug)]
pub enum ResponseType {
    Html,
}

/// A response waiting to be written: its status line text, content type,
/// kind and body.
pub struct Response {
    pub http_status: String,
    pub content_type: String,
    pub response_type: ResponseType,
    pub response_body: String,
}

/// The text that goes on the wire for a response:
/// `"<version> <status>\r\n<header>\r\n<body>"`.
pub open spec fn response_text(
    http_ver: Seq<char>,
    http_status: Seq<char>,
    response_header: Seq<char>,
    response_body: Seq<char>,
) -> Seq<char> {
    http_ver + " "@ + http_status + "\r\n"@ + response_header + "\r\n"@ + response_body
}

impl Response {
    /// Renders the response for the protocol version `http_ver`, with the
    /// header block `response_header`; gives the text and the status line.
    pub fn get_response(&self, http_ver: &str, response_header: String) -> (res: (String, String))
        ensures
            res.0@ == response_text(
                http_ver@,
                self.http_status@,
                response_header@,
                self.response_body@,
            ),
            res.1@ == self.http_status@,
    {
        let mut text = http_ver.to_owned();
        text.append(" ");
        text.append(self.http_status.as_str());
        text.append("\r\n");
        text.append(response_header.as_str());
        text.append("\r\n");
        text.append(self.response_body.as_str());
        (text, self.http_status.clone())
    }
}

} // verus!
