//! The decisions of the file server: who may ask, which file a request
//! names, what is answered, and what an upload writes.
//!
//! The file system and the network stay outside: the caller canonicalizes
//! paths, asks the file system what a path names, reads and writes files and
//! directories, and hands the results to the functions here.
use vstd::prelude::*;
use vstd::utf8::{decode_utf8, encode_utf8, valid_utf8};
use crate::cache::{cached, remembered, FileCache};
use crate::http::{
    construct_not_found_response, construct_invalid_password_response,
    construct_simple_response, is_simple_response, not_found_message, unauthorized_message,
    RequestHead, RequestMethod, SimpleResponse, STATUS_BAD_REQUEST, STATUS_CREATED,
    STATUS_FORBIDDEN, STATUS_INTERNAL_SERVER_ERROR, STATUS_NOT_FOUND, STATUS_OK, STATUS_UNAUTHORIZED,
};
use crate::listing::{construct_html_directory_listing_response, listing_page};
use crate::paths::{
    absolute_display, components, contains_parent_dir, has_parent_dir_component, is_absolute,
    is_absolute_path, is_component_prefix, is_normal_component, lemma_normal_components_are_normal, normal_components, path_key, push_path, pushed_path,
    starts_with_components, strip_components, views,
};
use crate::text::concat;

verus! {

/// The name that a directory entry is listed under: directories end with `/`.
pub open spec fn listed_name(name: Seq<char>, is_dir: bool) -> Seq<char> {
    if is_dir {
        name + seq!['/']
    } else {
        name
    }
}

/// The names that a directory's entries are listed under, in the order given.
pub fn get_directory_listing(entries: &[(String, bool)]) -> (r: Vec<String>)
    ensures
        r@.len() == entries@.len(),
        forall|i: int|
            0 <= i < entries@.len() ==> #[trigger] r@[i]@ == listed_name(
                entries@[i].0@,
                entries@[i].1,
            ),
{
    let mut names: Vec<String> = Vec::new();
    let n = entries.len();
    let mut i: usize = 0;
    let slash = "/";
    proof {
        reveal_strlit("/");
    }
    while i < n
        invariant
            n == entries@.len(),
            i <= n,
            slash@ == seq!['/'],
            names@.len() == i,
            forall|j: int|
                0 <= j < i ==> #[trigger] names@[j]@ == listed_name(entries@[j].0@, entries@[j].1),
        decreases n - i,
    {
        let name = if entries[i].1 {
            concat(entries[i].0.as_str(), slash)
        } else {
            String::from_str(entries[i].0.as_str())
        };
        names.push(name);
        i = i + 1;
    }
    names
}

/// Name for the MIME type, as text, that `mime_guess::from_path` followed by
/// `MimeGuess::first_or_octet_stream` gives for a path.
pub uninterp spec fn guessed_mime(path: Seq<char>) -> Seq<char>;

/// Calls `mime_guess::from_path(path).first_or_octet_stream()` and writes the
/// MIME type as text. The guess reads only the path's extension, so the contract
/// names the result by `guessed_mime` of the path. It also claims one fact that
/// `mime_guess`'s documentation gives: a path without any `.` has no extension,
/// so the guess is empty and the result is `application/octet-stream`.
#[verifier::external_body]
fn guess_mime_type(path: &str) -> (r: String)
    ensures
        r@ == guessed_mime(path@),
        !path@.contains('.') ==> r@ == "application/octet-stream"@,
{
    mime_guess::from_path(path).first_or_octet_stream().to_string()
}

/// Name for the text that `String::from_utf8_lossy` makes of bytes.
pub uninterp spec fn lossy_text(bytes: Seq<u8>) -> Seq<char>;

/// Calls `String::from_utf8_lossy`. The contract names the result by
/// `lossy_text` and claims what its documentation states: valid UTF-8 is
/// decoded unchanged. How invalid sequences are replaced is left to the name.
#[verifier::external_body]
fn utf8_lossy(bytes: &[u8]) -> (r: String)
    ensures
        r@ == lossy_text(bytes@),
        valid_utf8(bytes@) ==> r@ == decode_utf8(bytes@),
{
    String::from_utf8_lossy(bytes).into_owned()
}

#[verifier::external_type_specification]
#[verifier::external_body]
pub struct ExMulterError(multer::Error);

/// Name for the boundary that `multer::parse_boundary` finds in a
/// `Content-Type` value, or `None` where it fails.
pub uninterp spec fn multipart_boundary(content_type: Seq<char>) -> Option<Seq<char>>;

/// Calls `multer::parse_boundary`, which parses the value as a MIME type and
/// gives the `boundary` parameter of a `multipart/form-data` type. The contract
/// names the result by `multipart_boundary`.
#[verifier::external_body]
fn parse_multipart_boundary(content_type: &str) -> (r: Result<String, multer::Error>)
    ensures
        match r {
            Ok(boundary) => multipart_boundary(content_type@) == Some(boundary@),
            Err(_) => multipart_boundary(content_type@) is None,
        },
{
    multer::parse_boundary(content_type)
}

/// What the server does next with a request.
#[derive(Debug)]
pub enum Route {
    /// Answer at once.
    Respond(SimpleResponse),
    /// Canonicalize this path, then resolve it with `FileServer::sanitize_file_path`.
    Lookup(String),
    /// Read the multipart body and store its files.
    Upload,
}

/// What a resolved path names.
#[derive(Debug)]
pub enum Resource {
    File,
    Directory,
    /// Neither a file nor a directory: answer with this response.
    Other(SimpleResponse),
}

/// What to do with one field of an upload.
#[derive(Debug)]
pub enum UploadField {
    /// The field carries no file name: go on with the next field.
    Skip,
    /// The file name leaves the served directory: answer with this response.
    Reject(SimpleResponse),
    /// Write the field's data to the file at `path`; `key` holds the
    /// normal components of that path, which key the file in the cache.
    Write { path: String, key: Vec<String> },
}

/// What happened since the last step of an upload.
#[derive(Debug)]
pub enum UploadEvent {
    /// The next field arrived, with its file name, if it has one.
    NextField(Option<String>),
    /// The body holds no more fields.
    NoMoreFields,
    /// The next field could not be read; the error's text.
    NextFieldFailed(String),
    /// The data of the field for the file keyed by these components was
    /// written, or failed to be with the error's text.
    Written(Vec<String>, Result<(), String>),
}

/// What the caller does next during an upload.
#[derive(Debug)]
pub enum UploadAction {
    /// Read the next field of the body.
    ReadNextField,
    /// Write the current field's data to `path`, then report `Written` with `key`.
    Write { path: String, key: Vec<String> },
    /// Stop and answer with this response.
    Finish(SimpleResponse),
}

/// The message for a resource that is neither a file nor a directory.
pub open spec fn undisplayable_message(endpoint: Seq<char>) -> Seq<char> {
    "Could not display the resource "@ + endpoint
}

/// The message for a directory that could not be read.
pub open spec fn unreadable_directory_message(path: Seq<char>) -> Seq<char> {
    "Could not get the directory listing of "@ + path
}

/// The message for a refused upload file name.
pub open spec fn forbidden_upload_message() -> Seq<char> {
    "You are not allowed to write to this directory"@
}

/// The message for a `Content-Type` without a multipart boundary.
pub open spec fn invalid_content_type_message() -> Seq<char> {
    "Invalid multipart data content type"@
}

/// The message for a multipart body that could not be read.
pub open spec fn next_field_message(err: Seq<char>) -> Seq<char> {
    "Could not get next field: "@ + err
}

/// The message for a file that could not be written.
pub open spec fn write_failed_message(err: Seq<char>) -> Seq<char> {
    "Could not write data on disk: "@ + err
}

/// The text of the failure for a file larger than the maximum upload size.
pub open spec fn too_large_message() -> Seq<char> {
    "the file exceeds the maximum upload size"@
}

/// The message of a completed upload.
pub open spec fn created_message() -> Seq<char> {
    "Created"@
}

/// Serves the files below one directory, optionally behind a password.
#[derive(Debug, Clone)]
pub struct FileServer {
    password: Option<String>,
    directory: Vec<String>,
    upload_endpoint: Option<String>,
    max_upload_size: usize,
}

impl FileServer {
    /// The password, if one is set.
    pub closed spec fn password(&self) -> Option<Seq<char>> {
        match self.password {
            Some(p) => Some(p@),
            None => None,
        }
    }

    /// The components of the canonical served directory.
    pub closed spec fn root(&self) -> Seq<Seq<char>> {
        views(self.directory@)
    }

    /// The endpoint that uploads are posted to, when uploads are enabled.
    pub closed spec fn upload_endpoint(&self) -> Option<Seq<char>> {
        match self.upload_endpoint {
            Some(e) => Some(e@),
            None => None,
        }
    }

    /// The largest number of bytes that one uploaded file may hold.
    pub closed spec fn max_upload_size(&self) -> usize {
        self.max_upload_size
    }

    /// Whether a request that carries `password` in its `Authorization`
    /// header may go on.
    pub open spec fn accepts_password(&self, password: Option<Seq<u8>>) -> bool {
        match self.password() {
            None => true,
            Some(p) => password == Some(encode_utf8(p)),
        }
    }

    /// A server of the directory whose canonical path has the components
    /// `directory`, taking uploads at `upload_endpoint` (none when `None`) of
    /// files of at most `max_upload_size` bytes.
    pub fn new(
        directory: Vec<String>,
        password: Option<String>,
        upload_endpoint: Option<String>,
        max_upload_size: usize,
    ) -> (r: Self)
        ensures
            r.root() == views(directory@),
            r.password() == (match password {
                Some(p) => Some(p@),
                None => None::<Seq<char>>,
            }),
            r.upload_endpoint() == (match upload_endpoint {
                Some(e) => Some(e@),
                None => None::<Seq<char>>,
            }),
            r.max_upload_size() == max_upload_size,
    {
        FileServer { password, directory, upload_endpoint, max_upload_size }
    }

    /// The components of the canonical served directory.
    pub fn directory(&self) -> (r: &Vec<String>)
        ensures
            views(r@) == self.root(),
    {
        &self.directory
    }

    /// Whether the password given is accepted: always when no password is
    /// set, otherwise exactly when it equals the password's bytes.
    pub fn is_valid_password(&self, password: Option<&[u8]>) -> (r: bool)
        ensures
            r == self.accepts_password(
                match password {
                    Some(p) => Some(p@),
                    None => None,
                },
            ),
    {
        match &self.password {
            None => true,
            Some(server_password) => match password {
                None => false,
                Some(given) => {
                    let expected = server_password.as_str().as_bytes();
                    crate::text::bytes_equal(given, expected)
                },
            },
        }
    }

    /// Whether the request may go on.
    pub open spec fn authorizes(&self, req: &RequestHead) -> bool {
        self.accepts_password(
            match req.authorization {
                Some(a) => Some(a@),
                None => None,
            },
        )
    }

    /// The path on disk that a GET of `endpoint` names before canonicalization:
    /// the endpoint without its leading `/`, pushed onto the served directory.
    pub open spec fn requested_path(&self, endpoint: Seq<char>) -> Seq<char> {
        pushed_path(absolute_display(self.root()), endpoint.drop_first())
    }

    /// Whether an authorized request is an upload: a POST to the upload
    /// endpoint, when uploads are enabled.
    pub open spec fn is_upload_request(&self, req: &RequestHead) -> bool {
        req.method is Post && self.upload_endpoint() == Some(req.path@)
    }

    /// Decides what to do with a request: refuse it when its password is not
    /// accepted; look up the named path for a GET; read an upload for a POST to
    /// the upload endpoint when uploads are enabled; answer 404 otherwise.
    pub fn route(&self, req: &RequestHead) -> (r: Route)
        requires
            self.authorizes(req) && req.method is Get ==> req.path@.len() > 0 && (req.path@[0] as u32)
                < 128,
        ensures
            !self.authorizes(req) ==> (r matches Route::Respond(resp) && is_simple_response(
                resp,
                unauthorized_message(req.path@),
                STATUS_UNAUTHORIZED,
            )),
            self.authorizes(req) && req.method is Get ==> (r matches Route::Lookup(path) && path@
                == self.requested_path(req.path@)),
            self.authorizes(req) && self.is_upload_request(req) ==> (r is Upload),
            self.authorizes(req) && !(req.method is Get) && !self.is_upload_request(req) ==> (
            r matches Route::Respond(resp) && is_simple_response(
                resp,
                not_found_message(req.path@),
                STATUS_NOT_FOUND,
            )),
    {
        let authorization = match &req.authorization {
            Some(a) => Some(a.as_slice()),
            None => None,
        };
        if !self.is_valid_password(authorization) {
            return Route::Respond(construct_invalid_password_response(req.path.as_str()));
        }
        match req.method {
            RequestMethod::Get => {
                let n = req.path.as_str().unicode_len();
                let file_path = req.path.as_str().substring_char(1, n);
                assert(file_path@ =~= req.path@.drop_first());
                let root = path_key(self.directory.as_slice());
                Route::Lookup(push_path(root.as_str(), file_path))
            },
            RequestMethod::Post => {
                match &self.upload_endpoint {
                    Some(endpoint) => {
                        if req.path == *endpoint {
                            Route::Upload
                        } else {
                            Route::Respond(construct_not_found_response(req.path.as_str()))
                        }
                    },
                    None => Route::Respond(construct_not_found_response(req.path.as_str())),
                }
            },
            RequestMethod::Other => Route::Respond(
                construct_not_found_response(req.path.as_str()),
            ),
        }
    }

    /// Keeps a canonicalized path only when it lies within the served
    /// directory; a failed canonicalization (`None`) stays `None`.
    pub fn sanitize_file_path(&self, canonical: Option<Vec<String>>) -> (r: Option<Vec<String>>)
        ensures
            r == (match canonical {
                Some(c) => if is_component_prefix(self.root(), views(c@)) {
                    Some(c)
                } else {
                    None
                },
                None => None,
            }),
    {
        match canonical {
            Some(c) => {
                if starts_with_components(c.as_slice(), self.directory.as_slice()) {
                    Some(c)
                } else {
                    None
                }
            },
            None => None,
        }
    }

    /// Resolves a GET of `endpoint` from the canonicalized path: the path when
    /// it lies within the served directory, a 404 response otherwise.
    pub fn resolve_lookup(&self, endpoint: &str, canonical: Option<Vec<String>>) -> (r: Result<
        Vec<String>,
        SimpleResponse,
    >)
        ensures
            match r {
                Ok(c) => canonical == Some(c) && is_component_prefix(self.root(), views(c@)),
                Err(resp) => (canonical is None || !is_component_prefix(
                    self.root(),
                    views(canonical->Some_0@),
                )) && is_simple_response(resp, not_found_message(endpoint@), STATUS_NOT_FOUND),
            },
    {
        match self.sanitize_file_path(canonical) {
            Some(c) => Ok(c),
            None => Err(construct_not_found_response(endpoint)),
        }
    }

    /// The response for a directory within the served directory, given its
    /// entries, or `None` where the directory could not be read.
    pub fn handle_directory_display(
        &self,
        directory_path: &[String],
        entries: Option<Vec<String>>,
    ) -> (r: SimpleResponse)
        requires
            entries is Some ==> is_component_prefix(self.root(), views(directory_path@)),
        ensures
            entries is None ==> is_simple_response(
                r,
                unreadable_directory_message(absolute_display(views(directory_path@))),
                STATUS_INTERNAL_SERVER_ERROR,
            ),
            entries matches Some(e) ==> r.status == STATUS_OK && r.content_type@ == "text/html"@
                && r.content_length is None && r.body@ == encode_utf8(
                listing_page(views(directory_path@).skip(self.root().len() as int), views(e@)),
            ),
    {
        match entries {
            None => {
                let shown = path_key(directory_path);
                construct_simple_response(
                    concat("Could not get the directory listing of ", shown.as_str()),
                    STATUS_INTERNAL_SERVER_ERROR,
                )
            },
            Some(e) => {
                let relative = strip_components(directory_path, self.directory.as_slice());
                construct_html_directory_listing_response(relative.as_slice(), e.as_slice())
            },
        }
    }

    /// The target of one upload field: none without a file name; a 403
    /// response when the name is absolute or holds a `..` component; otherwise
    /// the name pushed onto the served directory, keyed by the served
    /// directory's components followed by the name's normal components.
    pub fn upload_field_target(&self, file_name: Option<&str>) -> (r: UploadField)
        ensures
            file_name is None ==> r is Skip,
            file_name matches Some(n) && (is_absolute_path(n@) || has_parent_dir_component(n@)) ==> (
            r matches UploadField::Reject(resp) && is_simple_response(
                resp,
                forbidden_upload_message(),
                STATUS_FORBIDDEN,
            )),
            file_name matches Some(n) && !is_absolute_path(n@) && !has_parent_dir_component(n@) ==> (
            r matches UploadField::Write { path, key } && path@ == pushed_path(
                absolute_display(self.root()),
                file_name->Some_0@,
            ) && views(key@) == self.root() + normal_components(file_name->Some_0@)),
    {
        match file_name {
            None => UploadField::Skip,
            Some(name) => {
                if is_absolute(name) || contains_parent_dir(name) {
                    return UploadField::Reject(
                        construct_simple_response(
                            String::from_str("You are not allowed to write to this directory"),
                            STATUS_FORBIDDEN,
                        ),
                    );
                }
                let mut target: Vec<String> = Vec::new();
                let n = self.directory.len();
                let mut i: usize = 0;
                while i < n
                    invariant
                        n == self.directory@.len(),
                        i <= n,
                        views(target@) == self.root().take(i as int),
                    decreases n - i,
                {
                    let ghost before = views(target@);
                    let c = self.directory[i].clone();
                    target.push(c);
                    assert(views(target@) =~= before.push(self.root()[i as int]));
                    assert(self.root().take(i + 1) =~= self.root().take(i as int).push(
                        self.root()[i as int],
                    ));
                    i = i + 1;
                }
                assert(self.root().take(n as int) =~= self.root());
                let mut parts = components(name);
                let ghost before = views(target@);
                let ghost added = views(parts@);
                target.append(&mut parts);
                assert(views(target@) =~= before + added);
                let root = path_key(self.directory.as_slice());
                let path = push_path(root.as_str(), name);
                UploadField::Write { path, key: target }
            },
        }
    }

    /// Whether a chunk of `chunk_len` bytes may be written after `written`
    /// bytes of the same file: the new total when it stays within the maximum
    /// upload size; otherwise the text of the failure, which ends the upload
    /// like any failed write.
    pub fn admit_chunk(&self, written: usize, chunk_len: usize) -> (r: Result<usize, String>)
        ensures
            written + chunk_len <= self.max_upload_size() ==> r == Ok::<usize, String>(
                (written + chunk_len) as usize,
            ),
            written + chunk_len > self.max_upload_size() ==> (r is Err && r->Err_0@
                == too_large_message()),
    {
        if written <= self.max_upload_size && chunk_len <= self.max_upload_size - written {
            Ok(written + chunk_len)
        } else {
            Err(String::from_str("the file exceeds the maximum upload size"))
        }
    }

    /// One step of an upload: from what happened, what to do next. A field
    /// without a file name is skipped; a refused name ends the upload with 403;
    /// a field that cannot be read ends it with 401; a failed write ends it
    /// with 500 and leaves the cache alone; a written file is forgotten by the
    /// cache and the next field is read; the end of the body answers 201.
    pub fn upload_step(&self, cache: &mut FileCache, event: UploadEvent) -> (r: UploadAction)
        ensures
            event matches UploadEvent::NextField(name) ==> final(cache)@ == old(cache)@ && (match name {
                None => r is ReadNextField,
                Some(n) => if is_absolute_path(n@) || has_parent_dir_component(n@) {
                    r matches UploadAction::Finish(resp) && is_simple_response(
                        resp,
                        forbidden_upload_message(),
                        STATUS_FORBIDDEN,
                    )
                } else {
                    r matches UploadAction::Write { path, key } && path@ == pushed_path(
                        absolute_display(self.root()),
                        n@,
                    ) && views(key@) == self.root() + normal_components(n@)
                },
            }),
            event is NoMoreFields ==> final(cache)@ == old(cache)@ && (r matches UploadAction::Finish(
                resp,
            ) && is_simple_response(resp, created_message(), STATUS_CREATED)),
            event matches UploadEvent::NextFieldFailed(e) ==> final(cache)@ == old(cache)@ && (
            r matches UploadAction::Finish(resp) && is_simple_response(
                resp,
                next_field_message(e@),
                STATUS_UNAUTHORIZED,
            )),
            event matches UploadEvent::Written(key, written) ==> match written {
                Ok(_) => r is ReadNextField && final(cache)@ == old(cache)@.remove(
                    absolute_display(views(key@)),
                ),
                Err(e) => final(cache)@ == old(cache)@ && (r matches UploadAction::Finish(resp)
                    && is_simple_response(resp, write_failed_message(e@), STATUS_INTERNAL_SERVER_ERROR)),
            },
    {
        match event {
            UploadEvent::NextField(name) => {
                let target = match &name {
                    Some(n) => self.upload_field_target(Some(n.as_str())),
                    None => self.upload_field_target(None),
                };
                match target {
                    UploadField::Skip => UploadAction::ReadNextField,
                    UploadField::Reject(resp) => UploadAction::Finish(resp),
                    UploadField::Write { path, key } => UploadAction::Write { path, key },
                }
            },
            UploadEvent::NoMoreFields => UploadAction::Finish(upload_completed()),
            UploadEvent::NextFieldFailed(e) => UploadAction::Finish(
                upload_next_field_failed(e.as_str()),
            ),
            UploadEvent::Written(key, written) => {
                match upload_field_written(cache, key.as_slice(), written) {
                    Some(resp) => UploadAction::Finish(resp),
                    None => UploadAction::ReadNextField,
                }
            },
        }
    }
}

/// The boundary of a multipart body, from the raw `Content-Type` header, or a
/// 400 response when there is no header or no boundary in it.
pub fn upload_boundary(content_type: Option<&[u8]>) -> (r: Result<String, SimpleResponse>)
    ensures
        match content_type {
            None => r matches Err(resp) && is_simple_response(
                resp,
                invalid_content_type_message(),
                STATUS_BAD_REQUEST,
            ),
            Some(ct) => match multipart_boundary(lossy_text(ct@)) {
                Some(b) => r matches Ok(boundary) && boundary@ == b,
                None => r matches Err(resp) && is_simple_response(
                    resp,
                    invalid_content_type_message(),
                    STATUS_BAD_REQUEST,
                ),
            },
        },
{
    let parsed = match content_type {
        None => None,
        Some(ct) => {
            let text = utf8_lossy(ct);
            match parse_multipart_boundary(text.as_str()) {
                Ok(boundary) => Some(boundary),
                Err(_) => None,
            }
        },
    };
    match parsed {
        Some(boundary) => Ok(boundary),
        None => Err(
            construct_simple_response(
                String::from_str("Invalid multipart data content type"),
                STATUS_BAD_REQUEST,
            ),
        ),
    }
}

/// Records the outcome of writing one upload field to the file with the
/// components `target`: on success the cached content of that file is
/// forgotten and the upload goes on (`None`); on failure the cache is left
/// alone and the upload ends with a 500 response.
pub fn upload_field_written(cache: &mut FileCache, target: &[String], written: Result<(), String>) -> (r:
    Option<SimpleResponse>)
    ensures
        written is Ok ==> r is None && final(cache)@ == old(cache)@.remove(
            absolute_display(views(target@)),
        ),
        written matches Err(e) ==> final(cache)@ == old(cache)@ && (r matches Some(resp)
            && is_simple_response(resp, write_failed_message(e@), STATUS_INTERNAL_SERVER_ERROR)),
{
    match written {
        Ok(()) => {
            let key = path_key(target);
            cache.remove(key.as_str());
            None
        },
        Err(e) => Some(
            construct_simple_response(
                concat("Could not write data on disk: ", e.as_str()),
                STATUS_INTERNAL_SERVER_ERROR,
            ),
        ),
    }
}

/// The response when the next field of a multipart body cannot be read.
pub fn upload_next_field_failed(err: &str) -> (r: SimpleResponse)
    ensures
        is_simple_response(r, next_field_message(err@), STATUS_UNAUTHORIZED),
{
    construct_simple_response(concat("Could not get next field: ", err), STATUS_UNAUTHORIZED)
}

/// The response once every field of an upload is stored.
pub fn upload_completed() -> (r: SimpleResponse)
    ensures
        is_simple_response(r, created_message(), STATUS_CREATED),
{
    construct_simple_response(String::from_str("Created"), STATUS_CREATED)
}

/// What a path within the served directory names, from what the file system
/// says of it: a file first, then a directory; otherwise a 500 response.
pub fn classify_resource(endpoint: &str, is_file: bool, is_dir: bool) -> (r: Resource)
    ensures
        is_file ==> r is File,
        !is_file && is_dir ==> r is Directory,
        !is_file && !is_dir ==> (r matches Resource::Other(resp) && is_simple_response(
            resp,
            undisplayable_message(endpoint@),
            STATUS_INTERNAL_SERVER_ERROR,
        )),
{
    if is_file {
        Resource::File
    } else if is_dir {
        Resource::Directory
    } else {
        Resource::Other(
            construct_simple_response(
                concat("Could not display the resource ", endpoint),
                STATUS_INTERNAL_SERVER_ERROR,
            ),
        )
    }
}

/// The response for a file within the served directory, given its content,
/// or `None` where it could not be read.
pub fn handle_file_retrieve(file_path: &[String], content: Option<Vec<u8>>) -> (r: SimpleResponse)
    ensures
        content is None ==> is_simple_response(
            r,
            not_found_message(absolute_display(views(file_path@))),
            STATUS_NOT_FOUND,
        ),
        content matches Some(body) ==> r.status == STATUS_OK && r.content_type@ == guessed_mime(
            absolute_display(views(file_path@)),
        ) && r.body@ == body@ && r.content_length == Some(body@.len() as usize),
{
    let shown = path_key(file_path);
    match content {
        None => construct_not_found_response(shown.as_str()),
        Some(body) => {
            let length = body.len();
            SimpleResponse {
                status: STATUS_OK,
                content_type: guess_mime_type(shown.as_str()),
                content_length: Some(length),
                body,
            }
        },
    }
}

/// An upload file name that the server accepts (neither absolute nor holding
/// a `..` component) is written strictly within the served directory: the
/// target starts with the served directory's components, and every component
/// after them names an entry below its parent (not empty, `.` or `..`, and
/// without a separator).
pub proof fn lemma_upload_target_within_root(root: Seq<Seq<char>>, file_name: Seq<char>)
    requires
        !is_absolute_path(file_name),
        !has_parent_dir_component(file_name),
    ensures
        is_component_prefix(root, root + normal_components(file_name)),
        forall|i: int|
            root.len() <= i < (root + normal_components(file_name)).len()
                ==> is_normal_component(#[trigger] (root + normal_components(file_name))[i]),
{
    let target = root + normal_components(file_name);
    assert(target.take(root.len() as int) =~= root);
    lemma_normal_components_are_normal(file_name);
    assert forall|i: int| root.len() <= i < target.len() implies is_normal_component(
        #[trigger] target[i],
    ) by {
        assert(normal_components(file_name)[i - root.len()] == target[i]);
        assert(normal_components(file_name).contains(target[i]));
    }
}

/// A GET of a file that an upload just wrote serves the new content: the
/// upload forgets the cache entry under the target's key, so the GET of the
/// same canonical file (the served directory followed by the upload name's
/// normal components, as when no symbolic link is involved) misses the cache,
/// reads the file, and from then on the cache gives back what was read.
pub proof fn lemma_get_after_upload_reads_new_content(
    server: FileServer,
    cache: Map<Seq<char>, Seq<u8>>,
    file_name: Seq<char>,
    canonical: Seq<Seq<char>>,
    content: Seq<u8>,
)
    requires
        !is_absolute_path(file_name),
        !has_parent_dir_component(file_name),
        canonical == server.root() + normal_components(file_name),
    ensures
        ({
            let after_upload = cache.remove(
                absolute_display(server.root() + normal_components(file_name)),
            );
            let key = absolute_display(canonical);
            &&& is_component_prefix(server.root(), canonical)
            &&& cached(after_upload, key) is None
            &&& cached(remembered(after_upload, key, content), key) == Some(content)
        }),
{
    lemma_upload_target_within_root(server.root(), file_name);
}

/// Only a POST to the configured upload endpoint is an upload: with uploads
/// disabled no request is one, and with them enabled exactly the POSTs whose
/// path is the endpoint are.
pub proof fn lemma_uploads_only_at_endpoint(server: FileServer, req: RequestHead)
    ensures
        server.upload_endpoint() is None ==> !server.is_upload_request(&req),
        server.upload_endpoint() matches Some(e) ==> (server.is_upload_request(&req) <==> (
        req.method is Post && req.path@ == e)),
{
}

/// Without a password every request may go on; with one, a request may go on
/// exactly when its `Authorization` header is the password's bytes.
pub proof fn lemma_password_gate(server: FileServer, req: RequestHead)
    ensures
        server.password() is None ==> server.authorizes(&req),
        server.password() matches Some(p) ==> (server.authorizes(&req) <==> (req.authorization
            is Some && req.authorization->Some_0@ == encode_utf8(p))),
{
}

/// A directory entry is listed under its name followed by `/`; any other
/// entry under its name unchanged.
pub proof fn lemma_listed_name_marks_only_directories(name: Seq<char>)
    ensures
        listed_name(name, false) == name,
        listed_name(name, true) == name.push('/'),
{
    assert(name + seq!['/'] =~= name.push('/'));
}

/// The texts that the server answers with, in full.
pub proof fn lemma_message_texts(endpoint: Seq<char>, err: Seq<char>)
    ensures
        undisplayable_message(endpoint) == "Could not display the resource "@ + endpoint,
        unreadable_directory_message(endpoint) == "Could not get the directory listing of "@
            + endpoint,
        forbidden_upload_message() == "You are not allowed to write to this directory"@,
        invalid_content_type_message() == "Invalid multipart data content type"@,
        next_field_message(err) == "Could not get next field: "@ + err,
        write_failed_message(err) == "Could not write data on disk: "@ + err,
        too_large_message() == "the file exceeds the maximum upload size"@,
        created_message() == "Created"@,
        crate::http::not_found_message(endpoint) == endpoint + " Not Found"@,
        crate::http::unauthorized_message(endpoint) == "You are not authorized to access "@
            + endpoint,
{
}

/// A GET of `endpoint` names the endpoint without its first character,
/// pushed onto `/` followed by the served directory's components.
pub proof fn lemma_requested_path_exactly(server: FileServer, endpoint: Seq<char>)
    ensures
        server.requested_path(endpoint) == pushed_path(
            seq!['/'] + crate::paths::join_with_slash(server.root()),
            endpoint.subrange(1, endpoint.len() as int),
        ),
{
    if endpoint.len() > 0 {
        assert(endpoint.drop_first() =~= endpoint.subrange(1, endpoint.len() as int));
    }
}

} // verus!
