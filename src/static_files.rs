use vstd::prelude::*;
use crate::http::headers::HeaderMap;
use crate::http::request::Request;
use crate::http::response::{Response, ResponseView};
use crate::http::status_code::StatusCode;
use crate::http::text::{same_text, text_between};

verus! {

/// The content type that a file extension stands for, among those known.
pub open spec fn mime_of(extension: Seq<char>) -> Option<Seq<char>> {
    if extension == "html"@ {
        Some("text/html"@)
    } else if extension == "css"@ {
        Some("text/css"@)
    } else if extension == "js"@ {
        Some("application/javascript"@)
    } else if extension == "json"@ {
        Some("application/json"@)
    } else if extension == "png"@ {
        Some("image/png"@)
    } else if extension == "jpg"@ || extension == "jpeg"@ {
        Some("image/jpeg"@)
    } else if extension == "gif"@ {
        Some("image/gif"@)
    } else if extension == "svg"@ {
        Some("image/svg+xml"@)
    } else if extension == "ico"@ {
        Some("image/x-icon"@)
    } else {
        None
    }
}

/// The response for a file: its content with its content type where the
/// extension is known, or a 404 where the file could not be read.
pub open spec fn file_response_view(extension: Option<Seq<char>>, content: Option<Seq<char>>) -> ResponseView {
    match content {
        Some(c) => ResponseView {
            status: StatusCode::OK,
            headers: match extension {
                Some(e) => match mime_of(e) {
                    Some(m) => Map::empty().insert("Content-Type"@, m),
                    None => Map::empty(),
                },
                None => Map::empty(),
            },
            body: Some(c),
        },
        None => ResponseView {
            status: StatusCode::NotFound,
            headers: Map::empty(),
            body: Some("File Not Found"@),
        },
    }
}

/// Serves files from under a root directory.
pub struct StaticFiles {
    pub root: String,
}

impl StaticFiles {
    /// Serves files from under `root`.
    pub fn new(root: &str) -> (r: StaticFiles)
        ensures
            r.root@ == root@,
    {
        StaticFiles { root: root.to_owned() }
    }

    /// The content type for a file extension, if it is a known one.
    pub fn get_mime_type(extension: &str) -> (r: Option<&'static str>)
        ensures
            match r {
                Some(m) => mime_of(extension@) == Some(m@),
                None => mime_of(extension@) is None,
            },
    {
        if same_text(extension, "html") {
            Some("text/html")
        } else if same_text(extension, "css") {
            Some("text/css")
        } else if same_text(extension, "js") {
            Some("application/javascript")
        } else if same_text(extension, "json") {
            Some("application/json")
        } else if same_text(extension, "png") {
            Some("image/png")
        } else if same_text(extension, "jpg") || same_text(extension, "jpeg") {
            Some("image/jpeg")
        } else if same_text(extension, "gif") {
            Some("image/gif")
        } else if same_text(extension, "svg") {
            Some("image/svg+xml")
        } else if same_text(extension, "ico") {
            Some("image/x-icon")
        } else {
            None
        }
    }

    /// The request path without its leading character (the `/`), to be
    /// resolved under the root.
    pub fn relative_path(request: &Request) -> (r: String)
        ensures
            request@.path.len() > 0 ==> r@ == request@.path.drop_first(),
            request@.path.len() == 0 ==> r@.len() == 0,
    {
        let path = request.path();
        let n = path.unicode_len();
        if n == 0 {
            return String::new();
        }
        let mut cs: Vec<char> = Vec::new();
        let mut i: usize = 1;
        while i < n
            invariant
                n == path@.len(),
                1 <= i <= n,
                cs@ == path@.subrange(1, i as int),
            decreases n - i,
        {
            cs.push(path.get_char(i));
            i = i + 1;
        }
        let r = text_between(&cs, 0, cs.len());
        assert(path@.drop_first() =~= path@.subrange(1, n as int));
        assert(cs@.subrange(0, cs@.len() as int) =~= cs@);
        r
    }

    /// The response for a file with the given extension whose content was
    /// read (`Some`) or could not be read (`None`).
    pub fn file_response(extension: Option<&str>, content: Option<String>) -> (r: Response)
        ensures
            r@ == file_response_view(
                match extension {
                    Some(e) => Some(e@),
                    None => None,
                },
                match content {
                    Some(c) => Some(c@),
                    None => None,
                },
            ),
    {
        match content {
            Some(c) => {
                let mut headers = HeaderMap::new();
                if let Some(e) = extension {
                    if let Some(mime) = StaticFiles::get_mime_type(e) {
                        headers.insert("Content-Type".to_owned(), mime.to_owned());
                    }
                }
                Response::new(StatusCode::OK, headers, Some(c))
            },
            None => Response::new(StatusCode::NotFound, HeaderMap::new(), Some("File Not Found".to_owned())),
        }
    }
}

} // verus!
