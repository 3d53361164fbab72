//! The structured form of one HTTP response.
use vstd::prelude::*;
use vstd::hash_map::StringHashMap;

verus! {

/// HTTP response container with status code, headers and raw body.
///
/// Header names are kept as received; a name that occurred more than once
/// holds the value of its last occurrence.
pub struct HttpResponse {
    pub status_code: u16,
    pub headers: StringHashMap<String>,
    pub body: Vec<u8>,
}

/// An `HttpResponse` as a plain value.
pub struct HttpResponseView {
    pub status_code: u16,
    pub headers: Map<Seq<char>, Seq<char>>,
    pub body: Seq<u8>,
}

/// A table of strings as a table of texts.
pub open spec fn text_map(table: Map<Seq<char>, String>) -> Map<Seq<char>, Seq<char>> {
    Map::new(|name: Seq<char>| table.contains_key(name), |name: Seq<char>| table[name]@)
}

impl View for HttpResponse {
    type V = HttpResponseView;

    open spec fn view(&self) -> HttpResponseView {
        HttpResponseView {
            status_code: self.status_code,
            headers: text_map(self.headers@),
            body: self.body@,
        }
    }
}

impl HttpResponse {
    /// Looks up the value of the header called `name`, spelled as received.
    pub fn header(&self, name: &str) -> (value: Option<&String>)
        ensures
            match value {
                Some(text) => self@.headers.contains_key(name@) && text@ == self@.headers[name@],
                None => !self@.headers.contains_key(name@),
            },
    {
        self.headers.get(name)
    }

    /// The number of distinct header names.
    pub fn header_count(&self) -> (count: usize)
        ensures
            count == self@.headers.len(),
    {
        proof {
            assert(self@.headers.dom() =~= self.headers@.dom());
        }
        self.headers.len()
    }
}

} // verus!
