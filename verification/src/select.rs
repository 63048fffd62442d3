//! Choosing the source for a URI.
use vstd::prelude::*;
use vstd::string::*;

use crate::error::{SourceError, SourceErrorView};
use crate::fd_uri::OwnedFdUri;
use crate::http_source;
use crate::http_source::{HttpRangeSource, SourceView};
use crate::owned_fd;
use crate::owned_fd::OwnedFdRegistry;
use crate::range::ByteRange;
use crate::text;

verus! {

/// A source of media bytes.
pub trait MediaSource: Send {
    /// Where the bytes come from.
    fn uri(&self) -> &str;

    /// How many bytes there are, as far as it can be told.
    fn len(&mut self) -> Result<Option<u64>, SourceError>;

    /// The bytes of `range`, or fewer where the source ends before.
    fn read_range(&mut self, range: ByteRange) -> Result<Vec<u8>, SourceError>;
}

/// What is known of a URI beforehand.
#[derive(Debug, Clone, Copy, PartialEq, Eq, Structural)]
pub enum MediaSourceHint {
    /// Nothing: the scheme decides.
    Auto,
    /// It names a local file.
    LocalFile,
    /// It names a resource on an HTTP server.
    Http,
}

/// A file in the local file system.
#[derive(Debug)]
pub struct LocalFileSource {
    /// The address of the file.
    pub uri: String,
    /// Where the file is.
    pub path: String,
}

/// A [`LocalFileSource`] in terms of sequences.
pub struct FileView {
    pub uri: Seq<char>,
    pub path: Seq<char>,
}

impl View for LocalFileSource {
    type V = FileView;

    open spec fn view(&self) -> FileView {
        FileView { uri: self.uri@, path: self.path@ }
    }
}

impl FileView {
    /// The file at a path.
    pub open spec fn at(path: Seq<char>) -> FileView {
        FileView { uri: "file://"@ + path, path }
    }
}

impl LocalFileSource {
    /// The file at `path`. Whether there is one turns out when it is read.
    pub fn open(path: &str) -> (source: Result<Self, SourceError>)
        ensures
            source matches Ok(source) && source@ == FileView::at(path@),
    {
        Ok(
            LocalFileSource {
                uri: text::joined("file://".to_string(), path),
                path: path.to_string(),
            },
        )
    }

    /// The address of the file.
    pub fn uri(&self) -> (uri: &str)
        ensures
            uri@ == self@.uri,
    {
        self.uri.as_str()
    }
}

/// What the choice of a source depends on besides the URI.
#[derive(Debug)]
pub struct Host {
    /// Whether the URI, taken as a path, names something in the local file system.
    pub path_exists: bool,
    /// The value of the `ERIKA_HTTP_READAHEAD_BYTES` setting, if it is set.
    pub read_ahead_setting: Option<String>,
    /// The descriptors that were handed over, on a platform that does so.
    pub descriptors: Option<OwnedFdRegistry>,
}

/// A [`Host`] in terms of sequences.
pub struct HostView {
    pub path_exists: bool,
    pub read_ahead_setting: Option<Seq<char>>,
    pub descriptors: Option<Set<i32>>,
}

impl View for Host {
    type V = HostView;

    open spec fn view(&self) -> HostView {
        HostView {
            path_exists: self.path_exists,
            read_ahead_setting: match self.read_ahead_setting {
                Some(setting) => Some(setting@),
                None => None,
            },
            descriptors: match self.descriptors {
                Some(registry) => Some(registry@),
                None => None,
            },
        }
    }
}

/// The source that a URI stands for.
pub enum SelectedSource {
    /// A local file.
    LocalFile(LocalFileSource),
    /// A resource on an HTTP server.
    Http(HttpRangeSource),
    /// A slice of the file at an adopted descriptor, and the URI that it was opened by.
    OwnedFd(OwnedFdUri, String),
}

/// A [`SelectedSource`] in terms of sequences.
pub enum SelectedView {
    LocalFile(FileView),
    Http(SourceView),
    OwnedFd(OwnedFdUri, Seq<char>),
}

impl View for SelectedSource {
    type V = SelectedView;

    open spec fn view(&self) -> SelectedView {
        match self {
            SelectedSource::LocalFile(source) => SelectedView::LocalFile(source@),
            SelectedSource::Http(source) => SelectedView::Http(source@),
            SelectedSource::OwnedFd(named, uri) => SelectedView::OwnedFd(*named, uri@),
        }
    }
}

impl SelectedSource {
    /// The address of the source.
    pub fn uri(&self) -> (uri: &str)
        ensures
            uri@ == self@.uri(),
    {
        match self {
            SelectedSource::LocalFile(source) => source.uri(),
            SelectedSource::Http(source) => source.uri(),
            SelectedSource::OwnedFd(_, uri) => uri.as_str(),
        }
    }
}

impl SelectedView {
    /// The address of the source.
    pub open spec fn uri(self) -> Seq<char> {
        match self {
            SelectedView::LocalFile(source) => source.uri,
            SelectedView::Http(source) => source.uri,
            SelectedView::OwnedFd(_, uri) => uri,
        }
    }
}

/// The outcome of a choice, in terms of sequences.
pub open spec fn selected_view(selected: Result<SelectedSource, SourceError>) -> Result<
    SelectedView,
    SourceErrorView,
> {
    match selected {
        Ok(source) => Ok(source@),
        Err(error) => Err(error@),
    }
}

/// Whether a URI names a descriptor.
pub open spec fn is_fd(uri: Seq<char>) -> bool {
    text::starts_with(uri, "fd://"@)
}

/// Whether a URI names a resource on an HTTP server.
pub open spec fn is_http(uri: Seq<char>) -> bool {
    text::starts_with(uri, "http://"@) || text::starts_with(uri, "https://"@)
}

/// The path that a URI stands for, with or without `file://` before it.
pub open spec fn path_of(uri: Seq<char>) -> Seq<char> {
    match text::after_prefix(uri, "file://"@) {
        Some(path) => path,
        None => uri,
    }
}

/// What HTTP sources are made with: headers, and a depth of the window.
pub struct HttpOptions {
    pub own: Seq<(String, String)>,
    pub read_ahead: Option<u64>,
}

impl HostView {
    /// The HTTP source for a URI.
    pub open spec fn http(self, uri: Seq<char>, options: HttpOptions) -> SelectedView {
        SelectedView::Http(
            SourceView::fresh(
                uri,
                options.own,
                match options.read_ahead {
                    Some(bytes) if bytes > 0 => bytes,
                    _ => http_source::read_ahead_setting(self.read_ahead_setting),
                },
            ),
        )
    }

    /// The local source for a URI.
    pub open spec fn local(self, uri: Seq<char>) -> Result<SelectedView, SourceErrorView> {
        if !is_fd(uri) {
            Ok(SelectedView::LocalFile(FileView::at(path_of(uri))))
        } else {
            match self.descriptors {
                None => Err(SourceErrorView::Unsupported(uri)),
                Some(registry) => match owned_fd::adoption(registry, uri).1 {
                    Ok(named) => Ok(SelectedView::OwnedFd(named, uri)),
                    Err(error) => Err(error),
                },
            }
        }
    }

    /// The source that the scheme of a URI stands for.
    pub open spec fn auto(self, uri: Seq<char>, options: HttpOptions) -> Result<
        SelectedView,
        SourceErrorView,
    > {
        if is_fd(uri) || text::starts_with(uri, "file://"@) {
            self.local(uri)
        } else if is_http(uri) {
            Ok(self.http(uri, options))
        } else if self.path_exists {
            Ok(SelectedView::LocalFile(FileView::at(uri)))
        } else {
            Err(SourceErrorView::Unsupported(uri))
        }
    }

    /// The source that a URI and a hint stand for.
    pub open spec fn selected(
        self,
        uri: Seq<char>,
        hint: MediaSourceHint,
        options: HttpOptions,
    ) -> Result<SelectedView, SourceErrorView> {
        match hint {
            MediaSourceHint::Auto => self.auto(uri, options),
            MediaSourceHint::LocalFile => self.local(uri),
            MediaSourceHint::Http => if is_http(uri) {
                Ok(self.http(uri, options))
            } else {
                Err(SourceErrorView::Unsupported(uri))
            },
        }
    }

    /// The host once the source was chosen: a descriptor may have been adopted.
    pub open spec fn after(self, uri: Seq<char>, hint: MediaSourceHint) -> HostView {
        match self.descriptors {
            Some(registry) if hint != MediaSourceHint::Http && is_fd(uri) => HostView {
                descriptors: Some(owned_fd::adoption(registry, uri).0),
                ..self
            },
            _ => self,
        }
    }
}

/// No headers and no particular window.
pub open spec fn plain() -> HttpOptions {
    HttpOptions { own: Seq::empty(), read_ahead: None }
}

/// The path that a URI stands for, with or without `file://` before it.
pub fn local_path_from_uri(uri: &str) -> (path: String)
    ensures
        path@ == path_of(uri@),
{
    let chars: Vec<char> = text::chars_of(uri);
    match text::strip_prefix(chars.as_slice(), "file://") {
        Some(path) => text::text_of(path),
        None => uri.to_string(),
    }
}

/// Chooses the local source for a URI.
fn source_from_local_uri(uri: &str, host: &mut Host) -> (selected: Result<
    SelectedSource,
    SourceError,
>)
    ensures
        selected_view(selected) == old(host)@.local(uri@),
        final(host)@ == old(host)@.after(uri@, MediaSourceHint::LocalFile),
{
    if !text::text_starts_with(uri, "fd://") {
        let path: String = local_path_from_uri(uri);
        return match LocalFileSource::open(path.as_str()) {
            Ok(source) => Ok(SelectedSource::LocalFile(source)),
            Err(error) => Err(error),
        };
    }
    match &mut host.descriptors {
        None => Err(SourceError::Unsupported(uri.to_string())),
        Some(registry) => match registry.open_uri(uri) {
            Ok(named) => Ok(SelectedSource::OwnedFd(named, uri.to_string())),
            Err(error) => Err(error),
        },
    }
}

/// Makes the HTTP source for a URI.
fn http_source_for(
    uri: &str,
    http_headers: Vec<(String, String)>,
    read_ahead: Option<u64>,
    host: &Host,
) -> (source: SelectedSource)
    ensures
        source@ == host@.http(uri@, HttpOptions { own: http_headers@, read_ahead }),
{
    let setting: Option<&str> = match &host.read_ahead_setting {
        Some(setting) => Some(setting.as_str()),
        None => None,
    };
    SelectedSource::Http(
        HttpRangeSource::with_http_headers_and_read_ahead(uri, http_headers, read_ahead, setting),
    )
}

/// Chooses the source that the scheme of a URI stands for.
fn source_from_auto_uri(
    uri: &str,
    http_headers: Vec<(String, String)>,
    http_read_ahead_bytes: Option<u64>,
    host: &mut Host,
) -> (selected: Result<SelectedSource, SourceError>)
    ensures
        selected_view(selected) == old(host)@.auto(
            uri@,
            HttpOptions { own: http_headers@, read_ahead: http_read_ahead_bytes },
        ),
        final(host)@ == old(host)@.after(uri@, MediaSourceHint::Auto),
{
    if text::text_starts_with(uri, "fd://") || text::text_starts_with(uri, "file://") {
        return source_from_local_uri(uri, host);
    }
    if text::text_starts_with(uri, "http://") || text::text_starts_with(uri, "https://") {
        return Ok(http_source_for(uri, http_headers, http_read_ahead_bytes, host));
    }
    if host.path_exists {
        return match LocalFileSource::open(uri) {
            Ok(source) => Ok(SelectedSource::LocalFile(source)),
            Err(error) => Err(error),
        };
    }
    Err(SourceError::Unsupported(uri.to_string()))
}

/// Chooses the source for a URI.
pub fn source_from_uri(uri: &str, host: &mut Host) -> (selected: Result<
    SelectedSource,
    SourceError,
>)
    ensures
        selected_view(selected) == old(host)@.selected(uri@, MediaSourceHint::Auto, plain()),
        final(host)@ == old(host)@.after(uri@, MediaSourceHint::Auto),
{
    source_from_uri_with_hint(uri, MediaSourceHint::Auto, host)
}

/// Chooses the source for a URI, with the range to read from it so as to get everything.
pub fn read_uri_to_end(uri: &str, host: &mut Host) -> (selected: Result<
    (SelectedSource, ByteRange),
    SourceError,
>)
    ensures
        match (selected, old(host)@.selected(uri@, MediaSourceHint::Auto, plain())) {
            (Ok((source, range)), Ok(wanted)) => {
                &&& source@ == wanted
                &&& range == (ByteRange { start: 0, length: None })
            },
            (Err(error), Err(wanted)) => error@ == wanted,
            _ => false,
        },
        final(host)@ == old(host)@.after(uri@, MediaSourceHint::Auto),
{
    match source_from_uri(uri, host) {
        Ok(source) => Ok((source, ByteRange::suffix_from(0))),
        Err(error) => Err(error),
    }
}

/// Chooses the source for a URI of which something is known.
pub fn source_from_uri_with_hint(uri: &str, source_hint: MediaSourceHint, host: &mut Host) -> (selected:
    Result<SelectedSource, SourceError>)
    ensures
        selected_view(selected) == old(host)@.selected(uri@, source_hint, plain()),
        final(host)@ == old(host)@.after(uri@, source_hint),
{
    source_from_uri_with_hint_and_headers(uri, source_hint, Vec::new(), host)
}

/// Chooses the source for a URI; an HTTP source sends these headers along.
pub fn source_from_uri_with_hint_and_headers(
    uri: &str,
    source_hint: MediaSourceHint,
    http_headers: Vec<(String, String)>,
    host: &mut Host,
) -> (selected: Result<SelectedSource, SourceError>)
    ensures
        selected_view(selected) == old(host)@.selected(
            uri@,
            source_hint,
            HttpOptions { own: http_headers@, read_ahead: None },
        ),
        final(host)@ == old(host)@.after(uri@, source_hint),
{
    source_from_uri_with_options(uri, source_hint, http_headers, None, host)
}

/// Chooses the source for a URI; an HTTP source sends these headers along and has a window of this
/// depth, or else of the depth that the setting or the default gives.
pub fn source_from_uri_with_options(
    uri: &str,
    source_hint: MediaSourceHint,
    http_headers: Vec<(String, String)>,
    http_read_ahead_bytes: Option<u64>,
    host: &mut Host,
) -> (selected: Result<SelectedSource, SourceError>)
    ensures
        selected_view(selected) == old(host)@.selected(
            uri@,
            source_hint,
            HttpOptions { own: http_headers@, read_ahead: http_read_ahead_bytes },
        ),
        final(host)@ == old(host)@.after(uri@, source_hint),
{
    match source_hint {
        MediaSourceHint::Auto => source_from_auto_uri(
            uri,
            http_headers,
            http_read_ahead_bytes,
            host,
        ),
        MediaSourceHint::LocalFile => source_from_local_uri(uri, host),
        MediaSourceHint::Http => {
            if text::text_starts_with(uri, "http://") || text::text_starts_with(uri, "https://") {
                Ok(http_source_for(uri, http_headers, http_read_ahead_bytes, host))
            } else {
                Err(SourceError::Unsupported(uri.to_string()))
            }
        },
    }
}

/// Whether a text begins with one prefix or another is decided by where the prefixes differ.
proof fn lemma_schemes_differ(uri: Seq<char>)
    ensures
        is_fd(uri) ==> !text::starts_with(uri, "file://"@) && !is_http(uri),
        text::starts_with(uri, "file://"@) ==> !is_http(uri),
{
    reveal_strlit("fd://");
    reveal_strlit("file://");
    reveal_strlit("http://");
    reveal_strlit("https://");
    if is_fd(uri) {
        assert(uri[1] == uri.take(5)[1] && uri[0] == uri.take(5)[0]);
    }
    if text::starts_with(uri, "file://"@) {
        assert(uri[1] == uri.take(7)[1] && uri[0] == uri.take(7)[0]);
    }
    if text::starts_with(uri, "http://"@) {
        assert(uri[0] == uri.take(7)[0]);
    }
    if text::starts_with(uri, "https://"@) {
        assert(uri[0] == uri.take(8)[0]);
    }
}

/// A hint is obeyed: a local file is never read over HTTP, nor an HTTP resource from a file.
pub proof fn law_hints_are_obeyed(
    host: HostView,
    uri: Seq<char>,
    options: HttpOptions,
)
    ensures
        host.selected(uri, MediaSourceHint::Http, options) matches Ok(source) ==> source is Http
            && is_http(uri),
        host.selected(uri, MediaSourceHint::LocalFile, options) matches Ok(source) ==> !(
        source is Http),
        is_http(uri) ==> host.selected(uri, MediaSourceHint::Auto, options) == host.selected(
            uri,
            MediaSourceHint::Http,
            options,
        ),
        is_fd(uri) || text::starts_with(uri, "file://"@) ==> host.selected(
            uri,
            MediaSourceHint::Auto,
            options,
        ) == host.selected(uri, MediaSourceHint::LocalFile, options),
{
    lemma_schemes_differ(uri);
}

/// A source that was chosen by a URI with a scheme has that URI as its address.
pub proof fn law_sources_keep_their_address(
    host: HostView,
    uri: Seq<char>,
    hint: MediaSourceHint,
    options: HttpOptions,
)
    requires
        is_fd(uri) || text::starts_with(uri, "file://"@) || (is_http(uri) && hint
            != MediaSourceHint::LocalFile),
    ensures
        host.selected(uri, hint, options) matches Ok(source) ==> source.uri() == uri,
{
    lemma_schemes_differ(uri);
    if text::starts_with(uri, "file://"@) {
        let n = "file://"@.len() as int;
        assert(uri =~= uri.take(n) + uri.skip(n));
    }
}

/// Headers and the depth of the window matter to HTTP sources only.
pub proof fn law_http_options_matter_to_http_only(
    host: HostView,
    uri: Seq<char>,
    hint: MediaSourceHint,
    one: HttpOptions,
    other: HttpOptions,
)
    requires
        !is_http(uri),
    ensures
        host.selected(uri, hint, one) == host.selected(uri, hint, other),
{
}

/// The scheme of a URI is what it begins with.
pub proof fn law_schemes_are_prefixes(rest: Seq<char>, uri: Seq<char>)
    ensures
        is_fd("fd://"@ + rest),
        is_http("http://"@ + rest),
        is_http("https://"@ + rest),
        is_fd(uri) ==> exists|rest: Seq<char>| uri == #[trigger] ("fd://"@ + rest),
        is_http(uri) ==> exists|rest: Seq<char>|
            uri == #[trigger] ("http://"@ + rest) || uri == "https://"@ + rest,
{
    text::law_prefixes_come_first("fd://"@, rest, uri);
    text::law_prefixes_come_first("http://"@, rest, uri);
    text::law_prefixes_come_first("https://"@, rest, uri);
    if is_fd(uri) {
        assert(uri == "fd://"@ + text::after_prefix(uri, "fd://"@)->0);
    }
    if text::starts_with(uri, "http://"@) {
        assert(uri == "http://"@ + text::after_prefix(uri, "http://"@)->0);
    } else if text::starts_with(uri, "https://"@) {
        let left = text::after_prefix(uri, "https://"@)->0;
        assert(uri == "https://"@ + left);
        assert("http://"@ + left == "http://"@ + left);
    }
}

/// Whatever local file is chosen, its address is `file://` and the path that is read, and the path
/// is the URI without `file://` before it.
pub proof fn law_local_files_are_read_at_their_path(
    host: HostView,
    uri: Seq<char>,
    hint: MediaSourceHint,
    options: HttpOptions,
)
    ensures
        host.selected(uri, hint, options) matches Ok(SelectedView::LocalFile(source)) ==> {
            &&& source.uri == "file://"@ + source.path
            &&& SelectedView::LocalFile(source).uri() == source.uri
            &&& source.path == uri || uri == "file://"@ + source.path
        },
{
    if text::starts_with(uri, "file://"@) {
        text::law_prefixes_come_first("file://"@, Seq::empty(), uri);
    }
}

/// An existing path, without a scheme before it, is opened as the file at that very path; so is
/// any path after `file://`, and any path of which it is known that it names a local file.
pub proof fn law_paths_are_opened_as_they_are(
    host: HostView,
    path: Seq<char>,
    options: HttpOptions,
)
    ensures
        ({
            let file = Ok::<_, SourceErrorView>(
                SelectedView::LocalFile(FileView { uri: "file://"@ + path, path }),
            );
            let named = !is_fd(path) && !text::starts_with(path, "file://"@);
            &&& named && !is_http(path) && host.path_exists ==> host.selected(
                path,
                MediaSourceHint::Auto,
                options,
            ) == file
            &&& named ==> host.selected(path, MediaSourceHint::LocalFile, options) == file
            &&& host.selected("file://"@ + path, MediaSourceHint::Auto, options) == file
            &&& host.selected("file://"@ + path, MediaSourceHint::LocalFile, options) == file
        }),
{
    text::law_prefixes_come_first("file://"@, path, "file://"@ + path);
    lemma_schemes_differ("file://"@ + path);
}

/// An HTTP address gets a source for that very address, which sends exactly the headers given and
/// keeps a window of the depth given; without one, of the depth that the setting names, and else of
/// two mebibytes. Nothing of the resource is known yet.
pub proof fn law_http_sources_are_made_to_order(
    host: HostView,
    uri: Seq<char>,
    hint: MediaSourceHint,
    options: HttpOptions,
)
    requires
        is_http(uri),
        hint != MediaSourceHint::LocalFile,
    ensures
        host.selected(uri, hint, options) matches Ok(SelectedView::Http(source)) && {
            &&& source.uri == uri
            &&& source.own == options.own
            &&& options.read_ahead matches Some(bytes) ==> (bytes > 0 ==> source.read_ahead == bytes)
            &&& (options.read_ahead is None || options.read_ahead == Some(0u64)) ==> {
                &&& host.read_ahead_setting is None ==> source.read_ahead == 2_097_152
                &&& host.read_ahead_setting matches Some(setting) ==> match text::u64_value(
                    setting,
                ) {
                    Some(bytes) => source.read_ahead == bytes,
                    None => source.read_ahead == 2_097_152,
                }
            }
            &&& source.request <= source.read_ahead && source.request <= 4_194_304
            &&& source.request == source.read_ahead || source.request == 4_194_304
            &&& source.content_length is None
            &&& source.cache.len() == 0
            &&& source.prefetch is None
            &&& source.failures == 0
        },
{
    lemma_schemes_differ(uri);
}

/// What is none of these is refused by its URI, and changes nothing.
pub proof fn law_other_addresses_are_refused(
    host: HostView,
    uri: Seq<char>,
    options: HttpOptions,
)
    ensures
        !is_fd(uri) && !text::starts_with(uri, "file://"@) && !is_http(uri) && !host.path_exists
            ==> host.selected(uri, MediaSourceHint::Auto, options) == Err::<
            SelectedView,
            SourceErrorView,
        >(SourceErrorView::Unsupported(uri)),
        !is_http(uri) ==> host.selected(uri, MediaSourceHint::Http, options) == Err::<
            SelectedView,
            SourceErrorView,
        >(SourceErrorView::Unsupported(uri)),
        is_fd(uri) && host.descriptors is None ==> host.selected(
            uri,
            MediaSourceHint::Auto,
            options,
        ) == Err::<SelectedView, SourceErrorView>(SourceErrorView::Unsupported(uri)),
{
}

/// A choice changes nothing of the host but the descriptor that it adopts: whatever is chosen, the
/// settings stay as they are, and descriptors are taken only for `fd://` addresses that are opened
/// locally.
pub proof fn law_choices_leave_the_host_alone(
    host: HostView,
    uri: Seq<char>,
    hint: MediaSourceHint,
)
    ensures
        host.after(uri, hint).path_exists == host.path_exists,
        host.after(uri, hint).read_ahead_setting == host.read_ahead_setting,
        !is_fd(uri) || hint == MediaSourceHint::Http ==> host.after(uri, hint) == host,
        host.descriptors is None ==> host.after(uri, hint) == host,
        host.descriptors matches Some(registry) ==> (host.after(uri, hint).descriptors matches Some(
            left,
        ) && left.subset_of(registry)),
        host.descriptors matches Some(registry) ==> (is_fd(uri) && hint != MediaSourceHint::Http
            ==> host.after(uri, hint).descriptors == Some(owned_fd::adoption(registry, uri).0)),
{
}

/// A registered descriptor that an `fd://` address names is adopted: the source is the slice that
/// the address names, under that address, and the descriptor awaits nobody any more.
pub proof fn law_registered_descriptors_are_opened(
    host: HostView,
    uri: Seq<char>,
    hint: MediaSourceHint,
    options: HttpOptions,
    registry: Set<i32>,
    named: OwnedFdUri,
)
    requires
        is_fd(uri),
        hint != MediaSourceHint::Http,
        host.descriptors == Some(registry),
        crate::fd_uri::named_by(uri) == Some(named),
        registry.contains(named.fd),
    ensures
        host.selected(uri, hint, options) == Ok::<_, SourceErrorView>(
            SelectedView::OwnedFd(named, uri),
        ),
        host.after(uri, hint).descriptors == Some(registry.remove(named.fd)),
{
    crate::fd_uri::law_the_descriptor_can_be_read_first(uri);
}

/// Where nothing is said of headers and of a window, none are sent and none in particular is kept.
pub proof fn law_plain_options_ask_for_nothing()
    ensures
        plain().own.len() == 0,
        plain().read_ahead is None,
{
}

/// What contracts say of a source and of the host is said of all that they hold.
pub proof fn law_choices_are_seen_as_they_are(
    file: LocalFileSource,
    source: HttpRangeSource,
    named: OwnedFdUri,
    uri: String,
    host: Host,
    error: SourceError,
)
    ensures
        file@.uri == file.uri@ && file@.path == file.path@,
        SelectedSource::LocalFile(file)@ == SelectedView::LocalFile(file@),
        SelectedSource::Http(source)@ == SelectedView::Http(source@),
        SelectedSource::OwnedFd(named, uri)@ == SelectedView::OwnedFd(named, uri@),
        SelectedSource::Http(source)@.uri() == source.uri@,
        SelectedSource::OwnedFd(named, uri)@.uri() == uri@,
        selected_view(Ok(SelectedSource::LocalFile(file))) == Ok::<_, SourceErrorView>(
            SelectedView::LocalFile(file@),
        ),
        selected_view(Err(error)) == Err::<SelectedView, SourceErrorView>(error@),
        host@.path_exists == host.path_exists,
        host.read_ahead_setting matches Some(setting) ==> host@.read_ahead_setting == Some(setting@),
        host.read_ahead_setting is None ==> host@.read_ahead_setting is None,
        host.descriptors matches Some(registry) ==> host@.descriptors == Some(registry@),
        host.descriptors is None ==> host@.descriptors is None,
{
}

} // verus!
