//! What is added to every request and every answer.

use vstd::prelude::*;
use vstd::string::*;

verus! {

/// Writes a line about every request.
#[derive(Debug, Clone, Copy, PartialEq, Eq, Structural)]
pub struct RequestLogging;

/// Lets requests from every origin in.
#[derive(Debug, Clone, Copy, PartialEq, Eq, Structural)]
pub struct SimpleCors;

/// Tells browsers to be careful with the answers.
#[derive(Debug, Clone, Copy, PartialEq, Eq, Structural)]
pub struct SecurityHeaders;

/// A header of an answer: its name and its value.
#[derive(Debug)]
pub struct Header {
    pub name: String,
    pub value: String,
}

/// The names and values of a list of headers.
pub open spec fn header_texts(headers: Seq<Header>) -> Seq<(Seq<char>, Seq<char>)> {
    headers.map_values(|h: Header| (h.name@, h.value@))
}

impl RequestLogging {
    /// The line about a request.
    pub fn line(method: &str, path: &str) -> (line: String)
        ensures
            line@ == "Request: "@ + method@ + " "@ + path@,
    {
        let mut line = String::from_str("Request: ");
        line.append(method);
        line.append(" ");
        line.append(path);
        line
    }
}

impl SimpleCors {
    /// The headers added to every answer.
    pub fn headers() -> (headers: Vec<Header>)
        ensures
            header_texts(headers@) == seq![("access-control-allow-origin"@, "*"@)],
    {
        let mut headers: Vec<Header> = Vec::new();
        headers.push(
            Header { name: String::from_str("access-control-allow-origin"), value: String::from_str("*") },
        );
        assert(header_texts(headers@) =~= seq![("access-control-allow-origin"@, "*"@)]);
        headers
    }
}

impl SecurityHeaders {
    /// The headers added to every answer.
    pub fn headers() -> (headers: Vec<Header>)
        ensures
            header_texts(headers@) == seq![
                ("x-content-type-options"@, "nosniff"@),
                ("x-frame-options"@, "DENY"@),
            ],
    {
        let mut headers: Vec<Header> = Vec::new();
        headers.push(
            Header { name: String::from_str("x-content-type-options"), value: String::from_str("nosniff") },
        );
        headers.push(Header { name: String::from_str("x-frame-options"), value: String::from_str("DENY") });
        assert(header_texts(headers@) =~= seq![
            ("x-content-type-options"@, "nosniff"@),
            ("x-frame-options"@, "DENY"@),
        ]);
        headers
    }
}

} // verus!
