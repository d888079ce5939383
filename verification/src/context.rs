//! What all connections of a server share.

use std::collections::HashMap;

use include_dir::Dir;
use vstd::prelude::*;
use vstd::string::*;
use vstd::utf8::encode_utf8;

use crate::status::{lemma_all_statuses, Status};
use crate::text::{decimal, push_decimal};

verus! {

/// A directory of embedded files.
#[verifier::external_type_specification]
#[verifier::external_body]
pub struct ExDir<'a>(Dir<'a>);

/// The files of an embedded directory: for each path that leads to one, its contents.
pub uninterp spec fn embedded_files(dir: Dir<'static>) -> Map<Seq<char>, Seq<u8>>;

/// `Dir::get_file` searches the directory and the directories in it for the entry with the
/// given path, and `File::contents` gives the bytes of the file found: the file that
/// `embedded_files` has under that path, or none if it has none.
#[verifier::external_body]
fn embedded_file(dir: &Dir<'static>, path: &str) -> (r: Option<Vec<u8>>)
    ensures
        match r {
            Some(contents) => embedded_files(*dir).contains_key(path@) && contents@
                == embedded_files(*dir)[path@],
            None => !embedded_files(*dir).contains_key(path@),
        },
{
    match dir.get_file(path) {
        Some(file) => Some(file.contents().to_vec()),
        None => None,
    }
}

/// What a server is set up with.
pub struct HttpHandleOption {
    /// Content to deliver with a status, by path.
    pub status_page: HashMap<Status, String>,
    /// The directory with the files to serve.
    pub serve_directory: String,
}

/// What a server answers from: a page for every status, and the directory with the files
/// to serve.
#[verifier::ext_equal]
pub struct Site {
    pub pages: Map<Status, Seq<u8>>,
    pub serve_dir: Seq<char>,
}

/// The path of the embedded page for a status.
pub open spec fn page_path(status: Status) -> Seq<char> {
    decimal(status.code() as nat) + ".html"@
}

/// The page for a status that has no embedded one.
pub open spec fn simple_page(status: Status) -> Seq<u8> {
    encode_utf8(
        "<h1>"@ + decimal(status.code() as nat) + " "@ + status.reason() + "<h1>"@,
    )
}

/// The page for a status that was given none.
pub open spec fn page_of(files: Map<Seq<char>, Seq<u8>>, status: Status) -> Seq<u8> {
    if files.contains_key(page_path(status)) {
        files[page_path(status)]
    } else {
        simple_page(status)
    }
}

/// The page that is delivered with a status: the given one, if there is one.
pub open spec fn delivered_page(
    given: Map<u32, Vec<u8>>,
    files: Map<Seq<char>, Seq<u8>>,
    status: Status,
) -> Seq<u8> {
    if given.contains_key(status.code()) {
        given[status.code()]@
    } else {
        page_of(files, status)
    }
}

/// A site with the given pages, and with its other ones among the given files.
pub open spec fn site_of(
    given: Map<u32, Vec<u8>>,
    files: Map<Seq<char>, Seq<u8>>,
    serve_dir: Seq<char>,
) -> Site {
    Site {
        pages: Map::new(
            |status: Status| true,
            |status: Status| delivered_page(given, files, status),
        ),
        serve_dir,
    }
}

/// What all connections share.
pub struct HttpContext {
    cache_status_page: HashMap<u32, Vec<u8>>,
    serve_dir: String,
}

impl View for HttpContext {
    type V = Site;

    closed spec fn view(&self) -> Site {
        Site {
            pages: Map::new(
                |status: Status| true,
                |status: Status| self.cache_status_page@[status.code()]@,
            ),
            serve_dir: self.serve_dir@,
        }
    }
}

/// Whether the size of every page can be told.
pub open spec fn pages_fit(site: Site) -> bool {
    forall|status: Status| (#[trigger] site.pages[status]).len() <= usize::MAX
}

/// The size of every page of a context can be told.
pub proof fn law_pages_fit(context: HttpContext)
    ensures
        pages_fit(context@),
{
    assert forall|status: Status| (#[trigger] context@.pages[status]).len() <= usize::MAX by {
        let page = context.cache_status_page@[status.code()];
        assert(page@.len() == page.len());
    }
}

/// The path of the embedded page for a status.
pub fn status_page_path(status: Status) -> (r: String)
    ensures
        r@ == page_path(status),
{
    let mut path = String::new();
    push_decimal(&mut path, status.code() as usize);
    path.append(".html");
    path
}

/// The page for a status: the embedded one, or a simple one if there is none.
pub fn choose_status_page(status: Status, embedded: Option<Vec<u8>>) -> (r: Vec<u8>)
    ensures
        r@ == match embedded {
            Some(contents) => contents@,
            None => simple_page(status),
        },
{
    if let Some(contents) = embedded {
        return contents;
    }
    let mut page = "<h1>".to_owned();
    push_decimal(&mut page, status.code() as usize);
    page.append(" ");
    page.append(status.to_string().as_str());
    page.append("<h1>");
    page.as_str().as_bytes_vec()
}

impl HttpContext {
    /// There is a page for every status.
    #[verifier::type_invariant]
    spec fn has_all_pages(self) -> bool {
        forall|status: Status| self.cache_status_page@.contains_key(#[trigger] status.code())
    }

    /// The context for the given options.
    /// `given` holds what was read from the files of `options.status_page`, by status code;
    /// the page for any other status comes out of `status_pages`.
    pub fn new(
        options: HttpHandleOption,
        given: HashMap<u32, Vec<u8>>,
        status_pages: &Dir<'static>,
    ) -> (r: HttpContext)
        ensures
            r@ == site_of(given@, embedded_files(*status_pages), options.serve_directory@),
            r@.serve_dir == options.serve_directory@,
            forall|s: Status|
                #![trigger r@.pages[s]]
                r@.pages[s] == if given@.contains_key(s.code()) {
                    given@[s.code()]@
                } else {
                    page_of(embedded_files(*status_pages), s)
                },
    {
        let ghost files = embedded_files(*status_pages);
        let mut cache: HashMap<u32, Vec<u8>> = HashMap::new();
        let statuses = Status::iter();
        let mut i: usize = 0;
        while i < statuses.len()
            invariant
                i <= statuses@.len(),
                statuses@ == Status::all(),
                files == embedded_files(*status_pages),
                forall|j: int|
                    0 <= j < i ==> {
                        let status = #[trigger] statuses@[j];
                        &&& cache@.contains_key(status.code())
                        &&& cache@[status.code()]@ == delivered_page(given@, files, status)
                    },
            decreases statuses@.len() - i,
        {
            let status = statuses[i];
            let code: u32 = status.code();
            let page = match given.get(&code) {
                Some(page) => page.clone(),
                None => {
                    let path = status_page_path(status);
                    choose_status_page(status, embedded_file(status_pages, path.as_str()))
                },
            };
            cache.insert(code, page);
            i = i + 1;
        }
        assert forall|status: Status| #![trigger status.code()]
            cache@.contains_key(status.code()) && cache@[status.code()]@ == delivered_page(
                given@,
                files,
                status,
            ) by {
            let position = lemma_all_statuses(status);
            assert(statuses@[position] == status);
        }
        let context = HttpContext { cache_status_page: cache, serve_dir: options.serve_directory };
        assert(context@ =~= site_of(given@, files, options.serve_directory@));
        context
    }

    /// The page for a status.
    pub fn status_page(&self, status: Status) -> (r: Vec<u8>)
        ensures
            r@ == self@.pages[status],
    {
        proof {
            use_type_invariant(self);
        }
        let code: u32 = status.code();
        self.cache_status_page.get(&code).unwrap().clone()
    }

    /// The directory with the files to serve.
    pub fn serve_dir(&self) -> (r: &str)
        ensures
            r@ == self@.serve_dir,
    {
        self.serve_dir.as_str()
    }
}

} // verus!
