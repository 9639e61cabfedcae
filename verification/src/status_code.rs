use vstd::prelude::*;

verus! {
pub const CONTINUE: i32 = 100;
pub const SWITCHING_PROTOCOLS: i32 = 101;
pub const OK: i32 = 200;
pub const CREATED: i32 = 201;
pub const ACCEPTED: i32 = 202;
pub const NON_AUTHORITATIVE_INFORMATION: i32 = 203;
pub const NO_CONTENT: i32 = 204;
pub const RESET_CONTENT: i32 = 205;
pub const PARTIAL_CONTENT: i32 = 206;
pub const MULTI_STATUS: i32 = 207;
pub const ALREADY_REPORTED: i32 = 208;
pub const IM_USED: i32 = 226;
pub const MULTIPLE_CHOICES: i32 = 300;
pub const MOVED_PERMANENTLY: i32 = 301;
pub const FOUND: i32 = 302;
pub const SEE_OTHER: i32 = 303;
pub const NOT_MODIFIED: i32 = 304;
pub const USE_PROXY: i32 = 305;
pub const TEMPORARY_REDIRECT: i32 = 307;
pub const PERMANENT_REDIRECT: i32 = 308;
pub const BAD_REQUEST: i32 = 400;
pub const UNAUTHORIZED: i32 = 401;
pub const PAYMENT_REQUIRED: i32 = 402;
pub const FORBIDDEN: i32 = 403;
pub const NOT_FOUND: i32 = 404;
pub const METHOD_NOT_ALLOWED: i32 = 405;
pub const NOT_ACCEPTABLE: i32 = 406;
pub const PROXY_AUTHENTICATION_REQUIRED: i32 = 407;
pub const REQUEST_TIMEOUT: i32 = 408;
pub const CONFLICT: i32 = 409;
pub const GONE: i32 = 410;
pub const LENGTH_REQUIRED: i32 = 411;
pub const PRECONDITION_FAILED: i32 = 412;
pub const PAYLOAD_TOO_LARGE: i32 = 413;
pub const URI_TOO_LONG: i32 = 414;
pub const UNSUPPORTED_MEDIA_TYPE: i32 = 415;
pub const RANGE_NOT_SATISFIABLE: i32 = 416;
pub const EXPECTATION_FAILED: i32 = 417;
pub const IM_A_TEAPOT: i32 = 418;
pub const MISDIRECTED_REQUEST: i32 = 421;
pub const UNPROCESSABLE_ENTITY: i32 = 422;
pub const LOCKED: i32 = 423;
pub const FAILED_DEPENDENCY: i32 = 424;
pub const UPGRADE_REQUIRED: i32 = 426;
pub const PRECONDITION_REQUIRED: i32 = 428;
pub const TOO_MANY_REQUESTS: i32 = 429;
pub const REQUEST_HEADER_FIELDS_TOO_LARGE: i32 = 431;
pub const UNAVAILABLE_FOR_LEGAL_REASONS: i32 = 451;
pub const INTERNAL_SERVER_ERROR: i32 = 500;
pub const NOT_IMPLEMENTED: i32 = 501;
pub const BAD_GATEWAY: i32 = 502;
pub const SERVICE_UNAVAILABLE: i32 = 503;
pub const GATEWAY_TIMEOUT: i32 = 504;
pub const HTTP_VERSION_NOT_SUPPORTED: i32 = 505;
pub const VARIANT_ALSO_NEGOTIATES: i32 = 506;
pub const INSUFFICIENT_STORAGE: i32 = 507;
pub const LOOP_DETECTED: i32 = 508;
pub const NOT_EXTENDED: i32 = 510;
pub const NETWORK_AUTHENTICATION_REQUIRED: i32 = 511;

/// The status line text that the table of this module gives to `status_code`,
/// or the empty sequence where the table has no entry for it.
pub open spec fn status_line(status_code: i32) -> Seq<char> {
    match status_code {
        100 => "100 Continue"@,
        101 => "101 Switching Protocols"@,
        200 => "200 OK"@,
        201 => "201 Created"@,
        202 => "202 Accepted"@,
        203 => "203 Non-Authoritative Information"@,
        204 => "204 No Content"@,
        205 => "205 Reset Content"@,
        206 => "206 Partial Content"@,
        207 => "207 Multi-Status"@,
        208 => "208 Already Reported"@,
        226 => "226 IM Used"@,
        300 => "300 Multiple Choices"@,
        301 => "301 Moved Permanently"@,
        302 => "302 Found"@,
        303 => "303 See Other"@,
        304 => "305 Not Modified"@,
        307 => "307 Temporary Redirect"@,
        308 => "308 Permanent Redirect"@,
        400 => "400 Bad Request"@,
        401 => "401 Unauthorized"@,
        402 => "402 Payment Required"@,
        403 => "403 Forbidden"@,
        404 => "404 Not Found"@,
        405 => "405 Method Not Allowed"@,
        406 => "406 Not Acceptable"@,
        407 => "407 Proxy Authentication Required"@,
        408 => "408 Request Timeout"@,
        409 => "409 Conflict"@,
        410 => "410 Gone"@,
        411 => "411 Length Required"@,
        412 => "412 Precondition Failed"@,
        413 => "413 Payload Too Large"@,
        414 => "414 URI Too Long"@,
        415 => "415 Unsupported Media Type"@,
        416 => "416 Range Not Satisfiable"@,
        417 => "417 Expectation Failed"@,
        418 => "418 I'm a teapot"@,
        421 => "421 Misdirected Request"@,
        422 => "422 Unprocessable Entity"@,
        423 => "423 Locked"@,
        424 => "424 Failed Dependency"@,
        426 => "426 Upgrade Required"@,
        428 => "428 Precondition Required"@,
        429 => "429 Too Many Requests"@,
        431 => "431 Request Header Fields Too Large"@,
        451 => "451 Unavailable For Legal Reasons"@,
        500 => "500 Internal Server Error"@,
        501 => "501 Not Implemented"@,
        502 => "502 Bad Gateway"@,
        503 => "503 Service Unavailable"@,
        504 => "504 Gateway Timeout"@,
        505 => "505 HTTP Version Not Supported"@,
        506 => "506 Variant Also Negotiates"@,
        507 => "507 Insufficient Storage"@,
        508 => "508 Loop Detected"@,
        510 => "510 Not Extended"@,
        511 => "511 Network Authentication Required"@,
        _ => Seq::empty(),
    }
}

/// Whether the table of this module has an entry for `status_code`.
pub open spec fn is_listed_status(status_code: i32) -> bool {
    match status_code {
        100 | 101 | 200 | 201 | 202 | 203 | 204 | 205 | 206 | 207 | 208 | 226 | 300 | 301 | 302 | 303 | 304 | 307 | 308 | 400 | 401 | 402 | 403 | 404 | 405 | 406 | 407 | 408 | 409 | 410 | 411 | 412 | 413 | 414 | 415 | 416 | 417 | 418 | 421 | 422 | 423 | 424 | 426 | 428 | 429 | 431 | 451 | 500 | 501 | 502 | 503 | 504 | 505 | 506 | 507 | 508 | 510 | 511 => true,
        _ => false,
    }
}

/// The decimal digit `d` as a character.
pub open spec fn digit_char(d: int) -> char {
    (48 + d) as char
}

/// A three-digit code written out, followed by a space.
pub open spec fn code_prefix(status_code: i32) -> Seq<char> {
    seq![
        digit_char(status_code / 100),
        digit_char((status_code / 10) % 10),
        digit_char((status_code % 10) as int),
        ' ',
    ]
}

/// The table gives a non-empty line exactly to the codes it lists, and each
/// line starts with its code and a space, except the line listed for
/// `NOT_MODIFIED`, which starts with `"305 "`.
pub proof fn lemma_status_lines(status_code: i32)
    ensures
        is_listed_status(status_code) <==> status_line(status_code).len() > 0,
        is_listed_status(status_code) && status_code != NOT_MODIFIED ==> status_line(status_code).len()
            >= 4 && status_line(status_code).take(4) == code_prefix(status_code),
{
    match status_code {
        100 => {
            reveal_strlit("100 Continue");
            assert(status_line(100).take(4) =~= code_prefix(100));
        },
        101 => {
            reveal_strlit("101 Switching Protocols");
            assert(status_line(101).take(4) =~= code_prefix(101));
        },
        200 => {
            reveal_strlit("200 OK");
            assert(status_line(200).take(4) =~= code_prefix(200));
        },
        201 => {
            reveal_strlit("201 Created");
            assert(status_line(201).take(4) =~= code_prefix(201));
        },
        202 => {
            reveal_strlit("202 Accepted");
            assert(status_line(202).take(4) =~= code_prefix(202));
        },
        203 => {
            reveal_strlit("203 Non-Authoritative Information");
            assert(status_line(203).take(4) =~= code_prefix(203));
        },
        204 => {
            reveal_strlit("204 No Content");
            assert(status_line(204).take(4) =~= code_prefix(204));
        },
        205 => {
            reveal_strlit("205 Reset Content");
            assert(status_line(205).take(4) =~= code_prefix(205));
        },
        206 => {
            reveal_strlit("206 Partial Content");
            assert(status_line(206).take(4) =~= code_prefix(206));
        },
        207 => {
            reveal_strlit("207 Multi-Status");
            assert(status_line(207).take(4) =~= code_prefix(207));
        },
        208 => {
            reveal_strlit("208 Already Reported");
            assert(status_line(208).take(4) =~= code_prefix(208));
        },
        226 => {
            reveal_strlit("226 IM Used");
            assert(status_line(226).take(4) =~= code_prefix(226));
        },
        300 => {
            reveal_strlit("300 Multiple Choices");
            assert(status_line(300).take(4) =~= code_prefix(300));
        },
        301 => {
            reveal_strlit("301 Moved Permanently");
            assert(status_line(301).take(4) =~= code_prefix(301));
        },
        302 => {
            reveal_strlit("302 Found");
            assert(status_line(302).take(4) =~= code_prefix(302));
        },
        303 => {
            reveal_strlit("303 See Other");
            assert(status_line(303).take(4) =~= code_prefix(303));
        },
        304 => {
            reveal_strlit("305 Not Modified");
        },
        307 => {
            reveal_strlit("307 Temporary Redirect");
            assert(status_line(307).take(4) =~= code_prefix(307));
        },
        308 => {
            reveal_strlit("308 Permanent Redirect");
            assert(status_line(308).take(4) =~= code_prefix(308));
        },
        400 => {
            reveal_strlit("400 Bad Request");
            assert(status_line(400).take(4) =~= code_prefix(400));
        },
        401 => {
            reveal_strlit("401 Unauthorized");
            assert(status_line(401).take(4) =~= code_prefix(401));
        },
        402 => {
            reveal_strlit("402 Payment Required");
            assert(status_line(402).take(4) =~= code_prefix(402));
        },
        403 => {
            reveal_strlit("403 Forbidden");
            assert(status_line(403).take(4) =~= code_prefix(403));
        },
        404 => {
            reveal_strlit("404 Not Found");
            assert(status_line(404).take(4) =~= code_prefix(404));
        },
        405 => {
            reveal_strlit("405 Method Not Allowed");
            assert(status_line(405).take(4) =~= code_prefix(405));
        },
        406 => {
            reveal_strlit("406 Not Acceptable");
            assert(status_line(406).take(4) =~= code_prefix(406));
        },
        407 => {
            reveal_strlit("407 Proxy Authentication Required");
            assert(status_line(407).take(4) =~= code_prefix(407));
        },
        408 => {
            reveal_strlit("408 Request Timeout");
            assert(status_line(408).take(4) =~= code_prefix(408));
        },
        409 => {
            reveal_strlit("409 Conflict");
            assert(status_line(409).take(4) =~= code_prefix(409));
        },
        410 => {
            reveal_strlit("410 Gone");
            assert(status_line(410).take(4) =~= code_prefix(410));
        },
        411 => {
            reveal_strlit("411 Length Required");
            assert(status_line(411).take(4) =~= code_prefix(411));
        },
        412 => {
            reveal_strlit("412 Precondition Failed");
            assert(status_line(412).take(4) =~= code_prefix(412));
        },
        413 => {
            reveal_strlit("413 Payload Too Large");
            assert(status_line(413).take(4) =~= code_prefix(413));
        },
        414 => {
            reveal_strlit("414 URI Too Long");
            assert(status_line(414).take(4) =~= code_prefix(414));
        },
        415 => {
            reveal_strlit("415 Unsupported Media Type");
            assert(status_line(415).take(4) =~= code_prefix(415));
        },
        416 => {
            reveal_strlit("416 Range Not Satisfiable");
            assert(status_line(416).take(4) =~= code_prefix(416));
        },
        417 => {
            reveal_strlit("417 Expectation Failed");
            assert(status_line(417).take(4) =~= code_prefix(417));
        },
        418 => {
            reveal_strlit("418 I'm a teapot");
            assert(status_line(418).take(4) =~= code_prefix(418));
        },
        421 => {
            reveal_strlit("421 Misdirected Request");
            assert(status_line(421).take(4) =~= code_prefix(421));
        },
        422 => {
            reveal_strlit("422 Unprocessable Entity");
            assert(status_line(422).take(4) =~= code_prefix(422));
        },
        423 => {
            reveal_strlit("423 Locked");
            assert(status_line(423).take(4) =~= code_prefix(423));
        },
        424 => {
            reveal_strlit("424 Failed Dependency");
            assert(status_line(424).take(4) =~= code_prefix(424));
        },
        426 => {
            reveal_strlit("426 Upgrade Required");
            assert(status_line(426).take(4) =~= code_prefix(426));
        },
        428 => {
            reveal_strlit("428 Precondition Required");
            assert(status_line(428).take(4) =~= code_prefix(428));
        },
        429 => {
            reveal_strlit("429 Too Many Requests");
            assert(status_line(429).take(4) =~= code_prefix(429));
        },
        431 => {
            reveal_strlit("431 Request Header Fields Too Large");
            assert(status_line(431).take(4) =~= code_prefix(431));
        },
        451 => {
            reveal_strlit("451 Unavailable For Legal Reasons");
            assert(status_line(451).take(4) =~= code_prefix(451));
        },
        500 => {
            reveal_strlit("500 Internal Server Error");
            assert(status_line(500).take(4) =~= code_prefix(500));
        },
        501 => {
            reveal_strlit("501 Not Implemented");
            assert(status_line(501).take(4) =~= code_prefix(501));
        },
        502 => {
            reveal_strlit("502 Bad Gateway");
            assert(status_line(502).take(4) =~= code_prefix(502));
        },
        503 => {
            reveal_strlit("503 Service Unavailable");
            assert(status_line(503).take(4) =~= code_prefix(503));
        },
        504 => {
            reveal_strlit("504 Gateway Timeout");
            assert(status_line(504).take(4) =~= code_prefix(504));
        },
        505 => {
            reveal_strlit("505 HTTP Version Not Supported");
            assert(status_line(505).take(4) =~= code_prefix(505));
        },
        506 => {
            reveal_strlit("506 Variant Also Negotiates");
            assert(status_line(506).take(4) =~= code_prefix(506));
        },
        507 => {
            reveal_strlit("507 Insufficient Storage");
            assert(status_line(507).take(4) =~= code_prefix(507));
        },
        508 => {
            reveal_strlit("508 Loop Detected");
            assert(status_line(508).take(4) =~= code_prefix(508));
        },
        510 => {
            reveal_strlit("510 Not Extended");
            assert(status_line(510).take(4) =~= code_prefix(510));
        },
        511 => {
            reveal_strlit("511 Network Authentication Required");
            assert(status_line(511).take(4) =~= code_prefix(511));
        },
        _ => {},
    }
}

/// The standard reason phrase of each status code that the table lists
/// (as in the HTTP status code registry), or the empty sequence.
pub open spec fn reason_phrase(status_code: i32) -> Seq<char> {
    match status_code {
        100 => "Continue"@,
        101 => "Switching Protocols"@,
        200 => "OK"@,
        201 => "Created"@,
        202 => "Accepted"@,
        203 => "Non-Authoritative Information"@,
        204 => "No Content"@,
        205 => "Reset Content"@,
        206 => "Partial Content"@,
        207 => "Multi-Status"@,
        208 => "Already Reported"@,
        226 => "IM Used"@,
        300 => "Multiple Choices"@,
        301 => "Moved Permanently"@,
        302 => "Found"@,
        303 => "See Other"@,
        304 => "Not Modified"@,
        307 => "Temporary Redirect"@,
        308 => "Permanent Redirect"@,
        400 => "Bad Request"@,
        401 => "Unauthorized"@,
        402 => "Payment Required"@,
        403 => "Forbidden"@,
        404 => "Not Found"@,
        405 => "Method Not Allowed"@,
        406 => "Not Acceptable"@,
        407 => "Proxy Authentication Required"@,
        408 => "Request Timeout"@,
        409 => "Conflict"@,
        410 => "Gone"@,
        411 => "Length Required"@,
        412 => "Precondition Failed"@,
        413 => "Payload Too Large"@,
        414 => "URI Too Long"@,
        415 => "Unsupported Media Type"@,
        416 => "Range Not Satisfiable"@,
        417 => "Expectation Failed"@,
        418 => "I'm a teapot"@,
        421 => "Misdirected Request"@,
        422 => "Unprocessable Entity"@,
        423 => "Locked"@,
        424 => "Failed Dependency"@,
        426 => "Upgrade Required"@,
        428 => "Precondition Required"@,
        429 => "Too Many Requests"@,
        431 => "Request Header Fields Too Large"@,
        451 => "Unavailable For Legal Reasons"@,
        500 => "Internal Server Error"@,
        501 => "Not Implemented"@,
        502 => "Bad Gateway"@,
        503 => "Service Unavailable"@,
        504 => "Gateway Timeout"@,
        505 => "HTTP Version Not Supported"@,
        506 => "Variant Also Negotiates"@,
        507 => "Insufficient Storage"@,
        508 => "Loop Detected"@,
        510 => "Not Extended"@,
        511 => "Network Authentication Required"@,
        _ => Seq::empty(),
    }
}

/// Each status line the table lists is the code written out, a space, and
/// the code's standard reason phrase; the one exception is the line for
/// `NOT_MODIFIED`, which carries the digits of `USE_PROXY`. Codes that the
/// table does not list have no line.
pub proof fn lemma_status_line_reason(status_code: i32)
    ensures
        is_listed_status(status_code) && status_code != NOT_MODIFIED ==> status_line(status_code) == code_prefix(
            status_code,
        ) + reason_phrase(status_code),
        status_code == NOT_MODIFIED ==> status_line(status_code) == code_prefix(USE_PROXY) + reason_phrase(
            status_code,
        ),
        !is_listed_status(status_code) ==> status_line(status_code) == Seq::<char>::empty(),
{
    match status_code {
        100 => {
            reveal_strlit("100 Continue");
            reveal_strlit("Continue");
            assert(status_line(100) =~= code_prefix(100) + reason_phrase(100));
        },
        101 => {
            reveal_strlit("101 Switching Protocols");
            reveal_strlit("Switching Protocols");
            assert(status_line(101) =~= code_prefix(101) + reason_phrase(101));
        },
        200 => {
            reveal_strlit("200 OK");
            reveal_strlit("OK");
            assert(status_line(200) =~= code_prefix(200) + reason_phrase(200));
        },
        201 => {
            reveal_strlit("201 Created");
            reveal_strlit("Created");
            assert(status_line(201) =~= code_prefix(201) + reason_phrase(201));
        },
        202 => {
            reveal_strlit("202 Accepted");
            reveal_strlit("Accepted");
            assert(status_line(202) =~= code_prefix(202) + reason_phrase(202));
        },
        203 => {
            reveal_strlit("203 Non-Authoritative Information");
            reveal_strlit("Non-Authoritative Information");
            assert(status_line(203) =~= code_prefix(203) + reason_phrase(203));
        },
        204 => {
            reveal_strlit("204 No Content");
            reveal_strlit("No Content");
            assert(status_line(204) =~= code_prefix(204) + reason_phrase(204));
        },
        205 => {
            reveal_strlit("205 Reset Content");
            reveal_strlit("Reset Content");
            assert(status_line(205) =~= code_prefix(205) + reason_phrase(205));
        },
        206 => {
            reveal_strlit("206 Partial Content");
            reveal_strlit("Partial Content");
            assert(status_line(206) =~= code_prefix(206) + reason_phrase(206));
        },
        207 => {
            reveal_strlit("207 Multi-Status");
            reveal_strlit("Multi-Status");
            assert(status_line(207) =~= code_prefix(207) + reason_phrase(207));
        },
        208 => {
            reveal_strlit("208 Already Reported");
            reveal_strlit("Already Reported");
            assert(status_line(208) =~= code_prefix(208) + reason_phrase(208));
        },
        226 => {
            reveal_strlit("226 IM Used");
            reveal_strlit("IM Used");
            assert(status_line(226) =~= code_prefix(226) + reason_phrase(226));
        },
        300 => {
            reveal_strlit("300 Multiple Choices");
            reveal_strlit("Multiple Choices");
            assert(status_line(300) =~= code_prefix(300) + reason_phrase(300));
        },
        301 => {
            reveal_strlit("301 Moved Permanently");
            reveal_strlit("Moved Permanently");
            assert(status_line(301) =~= code_prefix(301) + reason_phrase(301));
        },
        302 => {
            reveal_strlit("302 Found");
            reveal_strlit("Found");
            assert(status_line(302) =~= code_prefix(302) + reason_phrase(302));
        },
        303 => {
            reveal_strlit("303 See Other");
            reveal_strlit("See Other");
            assert(status_line(303) =~= code_prefix(303) + reason_phrase(303));
        },
        304 => {
            reveal_strlit("305 Not Modified");
            reveal_strlit("Not Modified");
            assert(status_line(304) =~= code_prefix(305) + reason_phrase(304));
        },
        307 => {
            reveal_strlit("307 Temporary Redirect");
            reveal_strlit("Temporary Redirect");
            assert(status_line(307) =~= code_prefix(307) + reason_phrase(307));
        },
        308 => {
            reveal_strlit("308 Permanent Redirect");
            reveal_strlit("Permanent Redirect");
            assert(status_line(308) =~= code_prefix(308) + reason_phrase(308));
        },
        400 => {
            reveal_strlit("400 Bad Request");
            reveal_strlit("Bad Request");
            assert(status_line(400) =~= code_prefix(400) + reason_phrase(400));
        },
        401 => {
            reveal_strlit("401 Unauthorized");
            reveal_strlit("Unauthorized");
            assert(status_line(401) =~= code_prefix(401) + reason_phrase(401));
        },
        402 => {
            reveal_strlit("402 Payment Required");
            reveal_strlit("Payment Required");
            assert(status_line(402) =~= code_prefix(402) + reason_phrase(402));
        },
        403 => {
            reveal_strlit("403 Forbidden");
            reveal_strlit("Forbidden");
            assert(status_line(403) =~= code_prefix(403) + reason_phrase(403));
        },
        404 => {
            reveal_strlit("404 Not Found");
            reveal_strlit("Not Found");
            assert(status_line(404) =~= code_prefix(404) + reason_phrase(404));
        },
        405 => {
            reveal_strlit("405 Method Not Allowed");
            reveal_strlit("Method Not Allowed");
            assert(status_line(405) =~= code_prefix(405) + reason_phrase(405));
        },
        406 => {
            reveal_strlit("406 Not Acceptable");
            reveal_strlit("Not Acceptable");
            assert(status_line(406) =~= code_prefix(406) + reason_phrase(406));
        },
        407 => {
            reveal_strlit("407 Proxy Authentication Required");
            reveal_strlit("Proxy Authentication Required");
            assert(status_line(407) =~= code_prefix(407) + reason_phrase(407));
        },
        408 => {
            reveal_strlit("408 Request Timeout");
            reveal_strlit("Request Timeout");
            assert(status_line(408) =~= code_prefix(408) + reason_phrase(408));
        },
        409 => {
            reveal_strlit("409 Conflict");
            reveal_strlit("Conflict");
            assert(status_line(409) =~= code_prefix(409) + reason_phrase(409));
        },
        410 => {
            reveal_strlit("410 Gone");
            reveal_strlit("Gone");
            assert(status_line(410) =~= code_prefix(410) + reason_phrase(410));
        },
        411 => {
            reveal_strlit("411 Length Required");
            reveal_strlit("Length Required");
            assert(status_line(411) =~= code_prefix(411) + reason_phrase(411));
        },
        412 => {
            reveal_strlit("412 Precondition Failed");
            reveal_strlit("Precondition Failed");
            assert(status_line(412) =~= code_prefix(412) + reason_phrase(412));
        },
        413 => {
            reveal_strlit("413 Payload Too Large");
            reveal_strlit("Payload Too Large");
            assert(status_line(413) =~= code_prefix(413) + reason_phrase(413));
        },
        414 => {
            reveal_strlit("414 URI Too Long");
            reveal_strlit("URI Too Long");
            assert(status_line(414) =~= code_prefix(414) + reason_phrase(414));
        },
        415 => {
            reveal_strlit("415 Unsupported Media Type");
            reveal_strlit("Unsupported Media Type");
            assert(status_line(415) =~= code_prefix(415) + reason_phrase(415));
        },
        416 => {
            reveal_strlit("416 Range Not Satisfiable");
            reveal_strlit("Range Not Satisfiable");
            assert(status_line(416) =~= code_prefix(416) + reason_phrase(416));
        },
        417 => {
            reveal_strlit("417 Expectation Failed");
            reveal_strlit("Expectation Failed");
            assert(status_line(417) =~= code_prefix(417) + reason_phrase(417));
        },
        418 => {
            reveal_strlit("418 I'm a teapot");
            reveal_strlit("I'm a teapot");
            assert(status_line(418) =~= code_prefix(418) + reason_phrase(418));
        },
        421 => {
            reveal_strlit("421 Misdirected Request");
            reveal_strlit("Misdirected Request");
            assert(status_line(421) =~= code_prefix(421) + reason_phrase(421));
        },
        422 => {
            reveal_strlit("422 Unprocessable Entity");
            reveal_strlit("Unprocessable Entity");
            assert(status_line(422) =~= code_prefix(422) + reason_phrase(422));
        },
        423 => {
            reveal_strlit("423 Locked");
            reveal_strlit("Locked");
            assert(status_line(423) =~= code_prefix(423) + reason_phrase(423));
        },
        424 => {
            reveal_strlit("424 Failed Dependency");
            reveal_strlit("Failed Dependency");
            assert(status_line(424) =~= code_prefix(424) + reason_phrase(424));
        },
        426 => {
            reveal_strlit("426 Upgrade Required");
            reveal_strlit("Upgrade Required");
            assert(status_line(426) =~= code_prefix(426) + reason_phrase(426));
        },
        428 => {
            reveal_strlit("428 Precondition Required");
            reveal_strlit("Precondition Required");
            assert(status_line(428) =~= code_prefix(428) + reason_phrase(428));
        },
        429 => {
            reveal_strlit("429 Too Many Requests");
            reveal_strlit("Too Many Requests");
            assert(status_line(429) =~= code_prefix(429) + reason_phrase(429));
        },
        431 => {
            reveal_strlit("431 Request Header Fields Too Large");
            reveal_strlit("Request Header Fields Too Large");
            assert(status_line(431) =~= code_prefix(431) + reason_phrase(431));
        },
        451 => {
            reveal_strlit("451 Unavailable For Legal Reasons");
            reveal_strlit("Unavailable For Legal Reasons");
            assert(status_line(451) =~= code_prefix(451) + reason_phrase(451));
        },
        500 => {
            reveal_strlit("500 Internal Server Error");
            reveal_strlit("Internal Server Error");
            assert(status_line(500) =~= code_prefix(500) + reason_phrase(500));
        },
        501 => {
            reveal_strlit("501 Not Implemented");
            reveal_strlit("Not Implemented");
            assert(status_line(501) =~= code_prefix(501) + reason_phrase(501));
        },
        502 => {
            reveal_strlit("502 Bad Gateway");
            reveal_strlit("Bad Gateway");
            assert(status_line(502) =~= code_prefix(502) + reason_phrase(502));
        },
        503 => {
            reveal_strlit("503 Service Unavailable");
            reveal_strlit("Service Unavailable");
            assert(status_line(503) =~= code_prefix(503) + reason_phrase(503));
        },
        504 => {
            reveal_strlit("504 Gateway Timeout");
            reveal_strlit("Gateway Timeout");
            assert(status_line(504) =~= code_prefix(504) + reason_phrase(504));
        },
        505 => {
            reveal_strlit("505 HTTP Version Not Supported");
            reveal_strlit("HTTP Version Not Supported");
            assert(status_line(505) =~= code_prefix(505) + reason_phrase(505));
        },
        506 => {
            reveal_strlit("506 Variant Also Negotiates");
            reveal_strlit("Variant Also Negotiates");
            assert(status_line(506) =~= code_prefix(506) + reason_phrase(506));
        },
        507 => {
            reveal_strlit("507 Insufficient Storage");
            reveal_strlit("Insufficient Storage");
            assert(status_line(507) =~= code_prefix(507) + reason_phrase(507));
        },
        508 => {
            reveal_strlit("508 Loop Detected");
            reveal_strlit("Loop Detected");
            assert(status_line(508) =~= code_prefix(508) + reason_phrase(508));
        },
        510 => {
            reveal_strlit("510 Not Extended");
            reveal_strlit("Not Extended");
            assert(status_line(510) =~= code_prefix(510) + reason_phrase(510));
        },
        511 => {
            reveal_strlit("511 Network Authentication Required");
            reveal_strlit("Network Authentication Required");
            assert(status_line(511) =~= code_prefix(511) + reason_phrase(511));
        },
        _ => {},
    }
}

/// Gives the status line (code and reason phrase) that the table lists for
/// `status_code`, or an empty string for a code that it does not list.
pub fn from_status_code(status_code: i32) -> (line: String)
    ensures
        line@ == status_line(status_code),
{
    match status_code {
        100 => "100 Continue".to_owned(),
        101 => "101 Switching Protocols".to_owned(),
        200 => "200 OK".to_owned(),
        201 => "201 Created".to_owned(),
        202 => "202 Accepted".to_owned(),
        203 => "203 Non-Authoritative Information".to_owned(),
        204 => "204 No Content".to_owned(),
        205 => "205 Reset Content".to_owned(),
        206 => "206 Partial Content".to_owned(),
        207 => "207 Multi-Status".to_owned(),
        208 => "208 Already Reported".to_owned(),
        226 => "226 IM Used".to_owned(),
        300 => "300 Multiple Choices".to_owned(),
        301 => "301 Moved Permanently".to_owned(),
        302 => "302 Found".to_owned(),
        303 => "303 See Other".to_owned(),
        304 => "305 Not Modified".to_owned(),
        307 => "307 Temporary Redirect".to_owned(),
        308 => "308 Permanent Redirect".to_owned(),
        400 => "400 Bad Request".to_owned(),
        401 => "401 Unauthorized".to_owned(),
        402 => "402 Payment Required".to_owned(),
        403 => "403 Forbidden".to_owned(),
        404 => "404 Not Found".to_owned(),
        405 => "405 Method Not Allowed".to_owned(),
        406 => "406 Not Acceptable".to_owned(),
        407 => "407 Proxy Authentication Required".to_owned(),
        408 => "408 Request Timeout".to_owned(),
        409 => "409 Conflict".to_owned(),
        410 => "410 Gone".to_owned(),
        411 => "411 Length Required".to_owned(),
        412 => "412 Precondition Failed".to_owned(),
        413 => "413 Payload Too Large".to_owned(),
        414 => "414 URI Too Long".to_owned(),
        415 => "415 Unsupported Media Type".to_owned(),
        416 => "416 Range Not Satisfiable".to_owned(),
        417 => "417 Expectation Failed".to_owned(),
        418 => "418 I'm a teapot".to_owned(),
        421 => "421 Misdirected Request".to_owned(),
        422 => "422 Unprocessable Entity".to_owned(),
        423 => "423 Locked".to_owned(),
        424 => "424 Failed Dependency".to_owned(),
        426 => "426 Upgrade Required".to_owned(),
        428 => "428 Precondition Required".to_owned(),
        429 => "429 Too Many Requests".to_owned(),
        431 => "431 Request Header Fields Too Large".to_owned(),
        451 => "451 Unavailable For Legal Reasons".to_owned(),
        500 => "500 Internal Server Error".to_owned(),
        501 => "501 Not Implemented".to_owned(),
        502 => "502 Bad Gateway".to_owned(),
        503 => "503 Service Unavailable".to_owned(),
        504 => "504 Gateway Timeout".to_owned(),
        505 => "505 HTTP Version Not Supported".to_owned(),
        506 => "506 Variant Also Negotiates".to_owned(),
        507 => "507 Insufficient Storage".to_owned(),
        508 => "508 Loop Detected".to_owned(),
        510 => "510 Not Extended".to_owned(),
        511 => "511 Network Authentication Required".to_owned(),
        _ => String::new(),
    }
}

} // verus!
