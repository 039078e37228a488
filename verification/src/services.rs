//! The dispatch coordinator: from a request to a response descriptor.
//!
//! The coordinator touches no file system. It says what is to be looked up
//! next, is told what was found, and in the end hands out the response.

use vstd::prelude::*;
use vstd::string::StringExecFns;
use crate::config::CounterfeitConfig;
use crate::default::DefaultRequest;
use crate::default::file_dispatcher::DefaultFileDispatcher;
use crate::default::file_dispatcher::answering;
use crate::error::Error;
use crate::error::ErrorKind;
use crate::error::ErrorModel;
use crate::error::outcome;
use crate::path::canonical;
use crate::path::has_extension;
use crate::path::path_has_extension;
use crate::rest::rest_dir_dispatcher::RestDirDispatcher;
use crate::rest::rest_dir_dispatcher::is_resolved;
use crate::rest::rest_dir_dispatcher::literal_path;
use crate::rotation::MultiFileIndexMap;
use crate::rotation::selected;
use crate::text::views;

verus! {

pub const STATUS_OK: u16 = 200;

pub const STATUS_NOT_FOUND: u16 = 404;

pub const STATUS_INTERNAL_SERVER_ERROR: u16 = 500;

/// The status that reports a failure: 404 for the not-found class, 500 for
/// everything else.
pub open spec fn error_status(kind: ErrorKind) -> u16 {
    match kind {
        ErrorKind::NotFound => STATUS_NOT_FOUND,
        ErrorKind::Other => STATUS_INTERNAL_SERVER_ERROR,
    }
}

/// The content type that goes with the file at `path`: JSON for the
/// extension `json`, none for any other.
pub open spec fn content_type_of(path: Seq<char>) -> Option<Seq<char>> {
    if has_extension(path, "json"@) {
        Some("application/json"@)
    } else {
        None
    }
}

/// The outcome of resolving and selecting: the path of the response file, or
/// why there is none.
pub type MapperResult = Result<String, Error>;

/// Status, body and content type of a response.
#[derive(Debug, Clone)]
pub struct Response {
    pub status: u16,
    pub body: String,
    pub content_type: Option<String>,
}

/// What a [`Response`] stands for.
pub struct ResponseModel {
    pub status: u16,
    pub body: Seq<char>,
    pub content_type: Option<Seq<char>>,
}

impl View for Response {
    type V = ResponseModel;

    open spec fn view(&self) -> ResponseModel {
        ResponseModel {
            status: self.status,
            body: self.body@,
            content_type: match self.content_type {
                Some(name) => Some(name@),
                None => None,
            },
        }
    }
}

/// The response that serves the contents `body` of the file at `path`.
pub open spec fn file_response(path: Seq<char>, body: Seq<char>) -> ResponseModel {
    ResponseModel { status: STATUS_OK, body, content_type: content_type_of(path) }
}

/// The response that reports the failure `error`: its description is the body.
pub open spec fn error_response(error: ErrorModel) -> ResponseModel {
    ResponseModel { status: error_status(error.kind), body: error.message, content_type: None }
}

/// The response descriptor of one dispatch.
#[derive(Debug)]
pub struct MapperOutput {
    request: DefaultRequest,
    response: Response,
    result: MapperResult,
}

/// What a [`MapperOutput`] stands for.
pub struct OutputModel {
    pub method: Seq<char>,
    pub uri_path: Seq<char>,
    pub response: ResponseModel,
    pub result: Result<Seq<char>, ErrorModel>,
}

impl View for MapperOutput {
    type V = OutputModel;

    closed spec fn view(&self) -> OutputModel {
        OutputModel {
            method: self.request.method@,
            uri_path: self.request.uri_path@,
            response: self.response@,
            result: outcome(self.result),
        }
    }
}

/// The descriptor of a request answered with the contents `body` of the
/// file at `path`.
pub open spec fn file_output(
    request: DefaultRequest,
    path: Seq<char>,
    body: Seq<char>,
) -> OutputModel {
    OutputModel {
        method: request.method@,
        uri_path: request.uri_path@,
        response: file_response(path, body),
        result: Ok(path),
    }
}

/// The descriptor of a request that failed with `error`.
pub open spec fn error_output(request: DefaultRequest, error: ErrorModel) -> OutputModel {
    OutputModel {
        method: request.method@,
        uri_path: request.uri_path@,
        response: error_response(error),
        result: Err(error),
    }
}

impl MapperOutput {
    pub fn new(request: DefaultRequest, response: Response, result: MapperResult) -> (output:
        MapperOutput)
        ensures
            output@ == (OutputModel {
                method: request.method@,
                uri_path: request.uri_path@,
                response: response@,
                result: outcome(result),
            }),
    {
        Self { request, response, result }
    }

    /// The descriptor for the file at `file_path`, given the outcome of
    /// reading it: status 200 with the contents as body, or the descriptor of
    /// the failure to read.
    pub fn from_file(
        request: DefaultRequest,
        file_path: String,
        contents: Result<String, Error>,
    ) -> (output: MapperOutput)
        ensures
            output@ == match contents {
                Ok(body) => file_output(request, file_path@, body@),
                Err(e) => error_output(request, e@),
            },
    {
        match contents {
            Ok(body) => {
                let content_type = if path_has_extension(file_path.as_str(), "json") {
                    Some(String::from_str("application/json"))
                } else {
                    None
                };
                let response = Response { status: STATUS_OK, body, content_type };
                Self { request, response, result: Ok(file_path) }
            },
            Err(e) => Self::from_error(request, e),
        }
    }

    /// The descriptor for a failure: status 404 for the not-found class, 500
    /// for any other, and the failure's description as body.
    pub fn from_error(request: DefaultRequest, error: Error) -> (output: MapperOutput)
        ensures
            output@ == error_output(request, error@),
    {
        let status: u16 = if error.is_not_found() {
            STATUS_NOT_FOUND
        } else {
            STATUS_INTERNAL_SERVER_ERROR
        };
        let response = Response { status, body: error.message(), content_type: None };
        Self { request, response, result: Err(error) }
    }

    pub fn request(&self) -> (request: &DefaultRequest)
        ensures
            request.method@ == self@.method,
            request.uri_path@ == self@.uri_path,
    {
        &self.request
    }

    pub fn response(&self) -> (response: &Response)
        ensures
            response@ == self@.response,
    {
        &self.response
    }

    pub fn result(&self) -> (result: &MapperResult)
        ensures
            outcome(*result) == self@.result,
    {
        &self.result
    }

    /// The response, open to changes before it is handed out.
    pub fn response_mut(&mut self) -> (response: &mut Response)
        ensures
            response@ == old(self)@.response,
            final(self)@ == (OutputModel { response: final(response)@, ..old(self)@ }),
    {
        &mut self.response
    }

    /// The result, open to changes before it is handed out.
    pub fn result_mut(&mut self) -> (result: &mut MapperResult)
        ensures
            outcome(*result) == old(self)@.result,
            final(self)@ == (OutputModel { result: outcome(*final(result)), ..old(self)@ }),
    {
        &mut self.result
    }

    /// One line for a log: the path of the file that was served, or the
    /// description of the failure.
    pub fn summary(&self) -> (line: String)
        ensures
            line@ == match self@.result {
                Ok(path) => path,
                Err(e) => e.message,
            },
    {
        match &self.result {
            Ok(path) => path.clone(),
            Err(e) => e.message(),
        }
    }
}

/// What the coordinator asks for next.
#[derive(Debug)]
pub enum Action {
    /// Find out whether the directory at this path exists.
    Probe(String),
    /// Collect every directory under this base path.
    Walk(String),
    /// List the regular files directly inside this directory.
    List(String),
    /// Read the whole of this file.
    Read(String),
    /// Hand out this response: the dispatch is over.
    Respond(MapperOutput),
}

/// What was found for the action that the coordinator asked for.
#[derive(Debug)]
pub enum Event {
    /// Whether the request's literal path exists.
    Probed(bool),
    /// The directories under the base path.
    Walked(Vec<String>),
    /// The outcome of listing the files of `directory`.
    Listed { directory: String, listing: Result<Vec<String>, Error> },
    /// The outcome of reading `file`.
    Read { file: String, contents: Result<String, Error> },
}

/// What an [`Action`] stands for.
pub enum ActionModel {
    Probe(Seq<char>),
    Walk(Seq<char>),
    List(Seq<char>),
    Read(Seq<char>),
    Respond(OutputModel),
}

impl View for Action {
    type V = ActionModel;

    open spec fn view(&self) -> ActionModel {
        match self {
            Action::Probe(path) => ActionModel::Probe(path@),
            Action::Walk(base) => ActionModel::Walk(base@),
            Action::List(directory) => ActionModel::List(directory@),
            Action::Read(file) => ActionModel::Read(file@),
            Action::Respond(output) => ActionModel::Respond(output@),
        }
    }
}

/// The action that follows a selection: read the file that was picked, or
/// report why none was.
pub open spec fn after_selection(
    request: DefaultRequest,
    picked: Result<Seq<char>, ErrorModel>,
) -> ActionModel {
    match picked {
        Ok(file) => ActionModel::Read(file),
        Err(e) => ActionModel::Respond(error_output(request, e)),
    }
}

/// Answers requests from a tree of response files.
pub struct FileMapperService {
    dir_picker: RestDirDispatcher,
    file_picker: DefaultFileDispatcher,
    config: CounterfeitConfig,
}

impl FileMapperService {
    pub fn new(
        dir_picker: RestDirDispatcher,
        file_picker: DefaultFileDispatcher,
        config: CounterfeitConfig,
    ) -> (service: FileMapperService)
        ensures
            service.config() == config,
            service.dir_picker() == dir_picker,
            service.file_picker() == file_picker,
    {
        Self { dir_picker, file_picker, config }
    }

    /// The service that resolves and selects by the stock rules under
    /// `config`, rotating through the shared table `index_map`.
    pub fn default(config: CounterfeitConfig, index_map: MultiFileIndexMap) -> (service:
        FileMapperService)
        ensures
            service.config().base_path@ == config.base_path@,
            service.config().prefix@ == config.prefix@,
            service.config().postfix@ == config.postfix@,
            service.config().silent == config.silent,
            service.dir_picker().config() == service.config(),
            service.file_picker().create_missing() == config.create_missing,
            service.file_picker().index_map() == index_map,
    {
        let create_missing: bool = config.create_missing;
        let settings = CounterfeitConfig {
            base_path: config.base_path.clone(),
            write: config.write,
            create_missing,
            silent: config.silent,
            prefix: config.prefix.clone(),
            postfix: config.postfix.clone(),
        };
        Self {
            dir_picker: RestDirDispatcher::new(config),
            file_picker: DefaultFileDispatcher::new(create_missing, index_map),
            config: settings,
        }
    }

    pub closed spec fn config(&self) -> CounterfeitConfig {
        self.config
    }

    pub closed spec fn dir_picker(&self) -> RestDirDispatcher {
        self.dir_picker
    }

    pub closed spec fn file_picker(&self) -> DefaultFileDispatcher {
        self.file_picker
    }

    /// Whether the log of requests and responses is switched off.
    pub fn is_silent(&self) -> (silent: bool)
        ensures
            silent == self.config().silent,
    {
        self.config.silent
    }

    /// The first action for `request`: probe its literal path.
    pub fn begin(&self, request: &DefaultRequest) -> (action: Action)
        ensures
            action@ == ActionModel::Probe(
                literal_path(self.dir_picker().config().base_path@, request.uri_path@),
            ),
    {
        Action::Probe(self.dir_picker.literal_path(request))
    }

    /// The action that follows `event` in the dispatch of `request`.
    ///
    /// A literal path that exists is listed at once, whatever else the tree
    /// holds. One that does not exist has the tree walked, and the directory
    /// that the walk resolves to is listed. A listing leads to the file whose
    /// turn it is, to be read, or to the failure response. What was read
    /// leads to the response.
    pub fn step(&self, request: &DefaultRequest, event: Event) -> (action: Action)
        ensures
            match event {
                Event::Probed(exists) => action@ == if exists {
                    ActionModel::List(
                        literal_path(self.dir_picker().config().base_path@, request.uri_path@),
                    )
                } else {
                    ActionModel::Walk(self.dir_picker().config().base_path@)
                },
                Event::Walked(directories) => action@ matches ActionModel::List(directory)
                    && is_resolved(
                    literal_path(self.dir_picker().config().base_path@, request.uri_path@),
                    false,
                    views(directories@),
                    self.dir_picker().config().prefix@,
                    self.dir_picker().config().postfix@,
                    directory,
                ),
                Event::Listed { directory, listing } => match listing {
                    Ok(files) => exists|table: Map<Seq<char>, usize>|
                        action@ == after_selection(
                            *request,
                            #[trigger] selected(
                                table,
                                canonical(directory@),
                                answering(views(files@), request.method@),
                            ),
                        ),
                    Err(e) => action@ == ActionModel::Respond(error_output(*request, e@)),
                },
                Event::Read { file, contents } => action@ == ActionModel::Respond(
                    match contents {
                        Ok(body) => file_output(*request, file@, body@),
                        Err(e) => error_output(*request, e@),
                    },
                ),
            },
    {
        match event {
            Event::Probed(exists) => {
                if exists {
                    Action::List(self.dir_picker.literal_path(request))
                } else {
                    Action::Walk(self.dir_picker.base_path())
                }
            },
            Event::Walked(directories) => Action::List(
                self.dir_picker.dispatch(request, false, &directories),
            ),
            Event::Listed { directory, listing } => {
                match self.file_picker.dispatch(directory.as_str(), request, listing) {
                    Ok(file) => Action::Read(file),
                    Err(e) => Action::Respond(MapperOutput::from_error(copy_of(request), e)),
                }
            },
            Event::Read { file, contents } => Action::Respond(
                MapperOutput::from_file(copy_of(request), file, contents),
            ),
        }
    }
}

/// A copy of `request`.
fn copy_of(request: &DefaultRequest) -> (copy: DefaultRequest)
    ensures
        copy == *request,
{
    DefaultRequest { method: request.method.clone(), uri_path: request.uri_path.clone() }
}

} // verus!
