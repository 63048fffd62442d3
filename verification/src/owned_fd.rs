//! Sources over file descriptors whose ownership was handed over.
//!
//! A host that hands over a descriptor registers it first. Opening an `fd://` URI takes the
//! descriptor out of the registry; one that was never registered is not adopted, since it may
//! belong to somebody else.
use std::collections::HashSet;

use vstd::prelude::*;
use vstd::std_specs::hash::*;
use vstd::string::*;

use crate::error::{SourceError, SourceErrorView};
use crate::fd_uri;
use crate::fd_uri::OwnedFdUri;
use crate::range::ByteRange;
use crate::text;

verus! {

broadcast use vstd::std_specs::hash::group_hash_axioms;

/// A whole number in base ten.
pub open spec fn signed_decimal(n: int) -> Seq<char> {
    if n < 0 {
        "-"@ + text::decimal((-n) as nat)
    } else {
        text::decimal(n as nat)
    }
}

/// Appends `n` in base ten to `text`.
fn joined_fd(text: String, n: i32) -> (whole: String)
    ensures
        whole@ == text@ + signed_decimal(n as int),
{
    if n < 0 {
        let size: u64 = (-(n as i64)) as u64;
        let signed: String = text::joined(text, "-");
        let whole: String = text::joined_decimal(signed, size);
        assert(whole@ =~= text@ + signed_decimal(n as int));
        whole
    } else {
        text::joined_decimal(text, n as u64)
    }
}

/// The error for a descriptor that is negative.
pub open spec fn negative_descriptor(fd: i32) -> SourceErrorView {
    SourceErrorView::InvalidFileDescriptorUri("negative descriptor "@ + signed_decimal(fd as int))
}

/// Checks that a descriptor is not negative.
pub fn check_owned_fd(fd: i32) -> (checked: Result<(), SourceError>)
    ensures
        match checked {
            Ok(()) => fd >= 0,
            Err(error) => fd < 0 && error@ == negative_descriptor(fd),
        },
{
    if fd < 0 {
        let message: String = joined_fd("negative descriptor ".to_string(), fd);
        return Err(SourceError::InvalidFileDescriptorUri(message));
    }
    Ok(())
}

/// The descriptors that were handed over and not yet adopted.
#[derive(Debug)]
pub struct OwnedFdRegistry {
    awaiting: HashSet<i32>,
}

/// Proof that a descriptor was registered, to be given back when the call that registered it ends.
#[derive(Debug)]
pub struct AndroidOwnedFdRegistration {
    /// The descriptor.
    pub fd: i32,
}

impl View for OwnedFdRegistry {
    type V = Set<i32>;

    closed spec fn view(&self) -> Set<i32> {
        self.awaiting@
    }
}

/// The outcome of reading an `fd://` URI, with the text of the error as characters.
pub open spec fn named_view(named: Result<OwnedFdUri, SourceError>) -> Result<
    OwnedFdUri,
    SourceErrorView,
> {
    match named {
        Ok(named) => Ok(named),
        Err(error) => Err(error@),
    }
}

/// What is left in a registry once an `fd://` URI was opened, and what the URI names.
pub open spec fn adoption(registry: Set<i32>, uri: Seq<char>) -> (
    Set<i32>,
    Result<OwnedFdUri, SourceErrorView>,
) {
    match fd_uri::fd_named_by(uri) {
        None => (registry, Err(fd_uri::invalid(uri))),
        Some(fd) if !registry.contains(fd) => (
            registry,
            Err(fd_uri::invalid(uri + " (descriptor was not explicitly transferred)"@)),
        ),
        Some(fd) => match fd_uri::named_by(uri) {
            Some(named) => (registry.remove(fd), Ok(named)),
            None => (registry.remove(fd), Err(fd_uri::invalid(uri))),
        },
    }
}

impl OwnedFdRegistry {
    /// A registry of no descriptors.
    pub fn new() -> (registry: Self)
        ensures
            registry@ == Set::<i32>::empty(),
    {
        OwnedFdRegistry { awaiting: HashSet::new() }
    }

    /// Whether a descriptor awaits adoption.
    pub fn awaits(&self, fd: i32) -> (yes: bool)
        ensures
            yes == self@.contains(fd),
    {
        self.awaiting.contains(&fd)
    }

    /// Takes a descriptor out of the registry; tells whether it was in it.
    pub fn take_registered_android_owned_fd(&mut self, fd: i32) -> (found: bool)
        ensures
            found == old(self)@.contains(fd),
            final(self)@ == old(self)@.remove(fd),
    {
        let found: bool = self.awaiting.remove(&fd);
        assert(self.awaiting@ =~= old(self).awaiting@.remove(fd));
        found
    }

    /// Ends a registration: the descriptor is no longer awaited, if it still was.
    pub fn release(&mut self, registration: AndroidOwnedFdRegistration)
        ensures
            final(self)@ == old(self)@.remove(registration.fd),
    {
        let found: bool = self.take_registered_android_owned_fd(registration.fd);
    }

    /// Adopts the descriptor that an `fd://` URI names, and reads the rest of the URI. A
    /// registered descriptor is taken even if the rest cannot be read.
    pub fn open_uri(&mut self, uri: &str) -> (named: Result<OwnedFdUri, SourceError>)
        ensures
            final(self)@ == adoption(old(self)@, uri@).0,
            named_view(named) == adoption(old(self)@, uri@).1,
    {
        let fd: i32 = match fd_uri::parse_owned_fd(uri) {
            Ok(fd) => fd,
            Err(error) => {
                return Err(error);
            },
        };
        if !self.take_registered_android_owned_fd(fd) {
            assert(self@ =~= old(self)@);
            let message: String = text::joined(
                uri.to_string(),
                " (descriptor was not explicitly transferred)",
            );
            return Err(SourceError::InvalidFileDescriptorUri(message));
        }
        fd_uri::parse_fd_uri(uri)
    }
}

/// What a registry holds once a descriptor was handed over, and the descriptor or why it is refused.
pub open spec fn registered(registry: Set<i32>, fd: i32) -> (
    Set<i32>,
    Result<i32, SourceErrorView>,
) {
    if fd < 0 {
        (registry, Err(negative_descriptor(fd)))
    } else if registry.contains(fd) {
        (
            registry,
            Err(
                SourceErrorView::InvalidFileDescriptorUri(
                    "descriptor "@ + signed_decimal(fd as int)
                        + " is already awaiting source adoption"@,
                ),
            ),
        )
    } else {
        (registry.insert(fd), Ok(fd))
    }
}

/// Registers a descriptor that was handed over.
pub fn register_android_owned_fd(registry: &mut OwnedFdRegistry, fd: i32) -> (registration: Result<
    AndroidOwnedFdRegistration,
    SourceError,
>)
    ensures
        match registration {
            Ok(registration) => {
                &&& fd >= 0
                &&& !old(registry)@.contains(fd)
                &&& registration.fd == fd
                &&& final(registry)@ == old(registry)@.insert(fd)
            },
            Err(error) => {
                &&& final(registry)@ == old(registry)@
                &&& if fd < 0 {
                    error@ == negative_descriptor(fd)
                } else {
                    &&& old(registry)@.contains(fd)
                    &&& error@ == SourceErrorView::InvalidFileDescriptorUri(
                        "descriptor "@ + signed_decimal(fd as int)
                            + " is already awaiting source adoption"@,
                    )
                }
            },
        },
        final(registry)@ == registered(old(registry)@, fd).0,
        match (registration, registered(old(registry)@, fd).1) {
            (Ok(registration), Ok(wanted)) => registration.fd == wanted,
            (Err(error), Err(wanted)) => error@ == wanted,
            _ => false,
        },
{
    match check_owned_fd(fd) {
        Ok(()) => {},
        Err(error) => {
            return Err(error);
        },
    }
    if registry.awaits(fd) {
        let message: String = text::joined(
            joined_fd("descriptor ".to_string(), fd),
            " is already awaiting source adoption",
        );
        return Err(SourceError::InvalidFileDescriptorUri(message));
    }
    let fresh: bool = registry.awaiting.insert(fd);
    Ok(AndroidOwnedFdRegistration { fd })
}

/// A slice of a file, read as if it were a file of its own.
#[derive(Debug)]
pub struct OwnedFileDescriptorSource {
    /// The URI that the source was opened by.
    pub uri: String,
    /// Where the slice begins in the file.
    pub offset: u64,
    /// How long the slice is, as far as it is known.
    pub length: Option<u64>,
}

/// The length of a slice: what was asked for, or else what the file holds from `offset` on.
pub open spec fn slice_length(file_length: u64, offset: u64, length: Option<u64>) -> Option<u64> {
    match length {
        Some(length) => Some(length),
        None => if offset <= file_length {
            Some((file_length - offset) as u64)
        } else {
            None
        },
    }
}

/// The error for a position in a file that cannot be written as a 64-bit number.
pub open spec fn seek_overflow() -> SourceErrorView {
    SourceErrorView::Io("owned descriptor seek offset overflowed u64"@)
}

impl OwnedFileDescriptorSource {
    /// A source over a slice of a file of `file_length` bytes.
    pub fn from_owned_file(
        file_length: u64,
        offset: u64,
        length: Option<u64>,
        uri: &str,
    ) -> (source: Self)
        ensures
            source.uri@ == uri@,
            source.offset == offset,
            source.length == slice_length(file_length, offset, length),
    {
        let slice: Option<u64> = match length {
            Some(length) => Some(length),
            None => file_length.checked_sub(offset),
        };
        OwnedFileDescriptorSource { uri: uri.to_string(), offset, length: slice }
    }

    /// A source over a slice of the file of `file_length` bytes that is open at `fd`.
    pub fn from_owned_fd(
        fd: i32,
        file_length: u64,
        offset: u64,
        length: Option<u64>,
        uri: &str,
    ) -> (source: Result<Self, SourceError>)
        ensures
            match source {
                Ok(source) => {
                    &&& fd >= 0
                    &&& source.uri@ == uri@
                    &&& source.offset == offset
                    &&& source.length == slice_length(file_length, offset, length)
                },
                Err(error) => fd < 0 && error@ == negative_descriptor(fd),
            },
    {
        match check_owned_fd(fd) {
            Ok(()) => Ok(Self::from_owned_file(file_length, offset, length, uri)),
            Err(error) => Err(error),
        }
    }

    /// The URI that the source was opened by.
    pub fn uri(&self) -> (uri: &str)
        ensures
            uri@ == self.uri@,
    {
        self.uri.as_str()
    }

    /// The length of the slice, as far as it is known.
    pub fn len(&self) -> (length: Option<u64>)
        ensures
            length == self.length,
    {
        self.length
    }

    /// How many bytes of the file a read of `range` may take; `None` if there is no bound.
    pub open spec fn read_length(self, range: ByteRange) -> Option<u64> {
        match (self.length, range.length) {
            (Some(total), Some(length)) if range.start + length <= total => Some(length),
            (Some(total), _) => Some((total - range.start) as u64),
            (None, length) => length,
        }
    }

    /// Where in the file to read `range`: `None` if it lies past the end of the slice.
    pub fn read_range(&self, range: ByteRange) -> (window: Result<Option<ByteRange>, SourceError>)
        ensures
            match window {
                Ok(None) => self.length matches Some(total) && range.start >= total,
                Ok(Some(window)) => {
                    &&& self.length matches Some(total) ==> range.start < total
                    &&& window.start == self.offset + range.start
                    &&& window.length == self.read_length(range)
                },
                Err(error) => {
                    &&& self.length matches Some(total) ==> range.start < total
                    &&& self.offset + range.start > u64::MAX
                    &&& error@ == seek_overflow()
                },
            },
    {
        let length: Option<u64> = match self.length {
            Some(total) => {
                if range.start >= total {
                    return Ok(None);
                }
                let left: u64 = total - range.start;
                match range.length {
                    Some(length) => Some(
                        if length <= left {
                            length
                        } else {
                            left
                        },
                    ),
                    None => Some(left),
                }
            },
            None => range.length,
        };
        match self.offset.checked_add(range.start) {
            Some(start) => Ok(Some(ByteRange { start, length })),
            None => Err(
                SourceError::Io("owned descriptor seek offset overflowed u64".to_string()),
            ),
        }
    }
}

/// A slice of known length is never left: what a read takes lies between the beginning and the
/// end of the slice in the file.
pub proof fn law_reads_stay_in_the_slice(
    source: OwnedFileDescriptorSource,
    range: ByteRange,
    window: ByteRange,
    at: int,
)
    requires
        source.length matches Some(total) && range.start < total,
        window.start == source.offset + range.start,
        window.length == source.read_length(range),
        window.has(at),
    ensures
        source.offset <= at < source.offset + source.length->0,
        range.has(at - source.offset),
{
}

/// Opening an `fd://` URI adopts only the descriptor that it names, and only one that was
/// registered; opening it again fails until the descriptor is registered again.
pub proof fn law_only_registered_descriptors_are_adopted(registry: Set<i32>, uri: Seq<char>)
    ensures
        ({
            let (left, named) = adoption(registry, uri);
            &&& named matches Ok(named) ==> registry.contains(named.fd) && left == registry.remove(
                named.fd,
            )
            &&& left.subset_of(registry)
            &&& adoption(left, uri).1 is Err
        }),
{
    if fd_uri::named_by(uri) is Some {
        fd_uri::law_the_descriptor_can_be_read_first(uri);
    }
}

/// A read leaves out nothing of the slice that it asks for: every position of the range that lies in
/// the slice is taken, at its place in the file.
pub proof fn law_reads_take_all_that_the_slice_holds(
    source: OwnedFileDescriptorSource,
    range: ByteRange,
    window: ByteRange,
    at: int,
)
    requires
        source.length matches Some(total) ==> range.start < total,
        window.start == source.offset + range.start,
        window.length == source.read_length(range),
        range.has(at),
        source.length matches Some(total) ==> at < total,
    ensures
        window.has(source.offset + at),
{
}

/// A slice is as long as was asked for; where that was left open, it reaches to the end of the file,
/// and its length is not known if it begins after that.
pub proof fn law_open_slices_reach_the_end_of_the_file(
    file_length: u64,
    offset: u64,
    length: u64,
)
    ensures
        slice_length(file_length, offset, Some(length)) == Some(length),
        slice_length(file_length, offset, None) matches Some(rest) ==> offset + rest == file_length,
        slice_length(file_length, offset, None) is None <==> offset > file_length,
{
}

/// A whole number is written with a sign only if it is negative, and errors name it in full.
pub proof fn law_only_negative_numbers_have_a_sign(n: nat, fd: i32)
    ensures
        signed_decimal(n as int) == text::decimal(n),
        n > 0 ==> signed_decimal(-n) == "-"@ + text::decimal(n),
        seek_overflow() == SourceErrorView::Io("owned descriptor seek offset overflowed u64"@),
        fd < 0 ==> negative_descriptor(fd) == SourceErrorView::InvalidFileDescriptorUri(
            "negative descriptor "@ + ("-"@ + text::decimal((-fd) as nat)),
        ),
{
}

/// A URI that names no descriptor, or one that was not registered, is refused for that reason, and
/// the registry stays as it is. A registered descriptor is taken: for what the URI names if it can
/// be read, and for nothing if the rest of it cannot.
pub proof fn law_adoption_takes_what_was_registered(registry: Set<i32>, uri: Seq<char>)
    ensures
        ({
            let (left, named) = adoption(registry, uri);
            match fd_uri::fd_named_by(uri) {
                None => left == registry && named == Err::<OwnedFdUri, SourceErrorView>(
                    SourceErrorView::InvalidFileDescriptorUri(uri),
                ),
                Some(fd) => {
                    &&& !registry.contains(fd) ==> left == registry && named == Err::<
                        OwnedFdUri,
                        SourceErrorView,
                    >(
                        SourceErrorView::InvalidFileDescriptorUri(
                            uri + " (descriptor was not explicitly transferred)"@,
                        ),
                    )
                    &&& registry.contains(fd) ==> left == registry.remove(fd) && match fd_uri::named_by(
                        uri,
                    ) {
                        Some(wanted) => named == Ok::<_, SourceErrorView>(wanted),
                        None => named == Err::<OwnedFdUri, SourceErrorView>(
                            SourceErrorView::InvalidFileDescriptorUri(uri),
                        ),
                    }
                },
            }
        }),
{
}

/// A read takes exactly the positions of the range that lie in the slice, each at its place in the
/// file. It takes nothing if and only if the range begins past the end of the slice, and fails only
/// if the place of its beginning is no 64-bit number.
pub proof fn law_windows_are_the_reads_within_the_slice(
    source: OwnedFileDescriptorSource,
    range: ByteRange,
    window: Result<Option<ByteRange>, SourceError>,
    at: int,
)
    requires
        call_ensures(OwnedFileDescriptorSource::read_range, (&source, range), window),
    ensures
        ({
            let past = source.length matches Some(total) && range.start >= total;
            &&& past <==> (window matches Ok(None))
            &&& window is Err <==> !past && source.offset + range.start > u64::MAX
            &&& window matches Ok(Some(window)) ==> (window.has(source.offset + at) <==> range.has(
                at,
            ) && (source.length matches Some(total) ==> at < total))
            &&& window matches Err(error) ==> error@ == SourceErrorView::Io(
                "owned descriptor seek offset overflowed u64"@,
            )
        }),
{
}

/// A source over a descriptor is made if and only if the descriptor is not negative, and keeps the
/// address, the beginning and the length that it was made with.
pub proof fn law_slices_are_made_to_order(
    fd: i32,
    file_length: u64,
    offset: u64,
    length: Option<u64>,
    uri: &str,
    made: Result<OwnedFileDescriptorSource, SourceError>,
    source: OwnedFileDescriptorSource,
    known: Option<u64>,
)
    requires
        call_ensures(
            OwnedFileDescriptorSource::from_owned_fd,
            (fd, file_length, offset, length, uri),
            made,
        ),
        call_ensures(
            OwnedFileDescriptorSource::from_owned_file,
            (file_length, offset, length, uri),
            source,
        ),
        call_ensures(OwnedFileDescriptorSource::len, (&source,), known),
    ensures
        made is Ok <==> fd >= 0,
        made matches Ok(made) ==> {
            &&& made.uri@ == source.uri@
            &&& made.offset == source.offset
            &&& made.length == source.length
        },
        made matches Err(error) ==> error@ == negative_descriptor(fd),
        source.uri@ == uri@,
        source.offset == offset,
        length is Some ==> source.length == length,
        length is None && offset <= file_length ==> (source.length matches Some(rest) && offset
            + rest == file_length),
        length is None && offset > file_length ==> source.length is None,
        known == source.length,
{
}

/// Every descriptor that is not negative can be registered, and then awaits adoption like those that
/// were registered before. It cannot be registered again before it is adopted or released; taking it
/// out leaves the registry as it was. A refusal changes nothing and names the descriptor.
pub proof fn law_registered_descriptors_await_adoption(registry: Set<i32>, fd: i32)
    ensures
        fd >= 0 && !registry.contains(fd) ==> {
            let (more, outcome) = registered(registry, fd);
            &&& outcome == Ok::<_, SourceErrorView>(fd)
            &&& more.contains(fd)
            &&& more.remove(fd) == registry
            &&& registered(more, fd).0 == more
            &&& registered(more, fd).1 == Err::<i32, SourceErrorView>(
                SourceErrorView::InvalidFileDescriptorUri(
                    "descriptor "@ + text::decimal(fd as nat)
                        + " is already awaiting source adoption"@,
                ),
            )
        },
        fd >= 0 && registry.contains(fd) ==> registered(registry, fd).0 == registry && registered(
            registry,
            fd,
        ).1 is Err,
        fd < 0 ==> registered(registry, fd).0 == registry && registered(registry, fd).1 == Err::<
            i32,
            SourceErrorView,
        >(
            SourceErrorView::InvalidFileDescriptorUri(
                "negative descriptor "@ + ("-"@ + text::decimal((-fd) as nat)),
            ),
        ),
{
    assert(registry.insert(fd).remove(fd) =~= registry || registry.contains(fd));
}

/// A descriptor that was registered is adopted by a URI that names it, once: what was registered
/// besides it stays, and the same URI opens nothing until it is registered again.
pub proof fn law_registered_descriptors_are_adopted_once(
    registry: Set<i32>,
    uri: Seq<char>,
    named: OwnedFdUri,
)
    requires
        fd_uri::named_by(uri) == Some(named),
        !registry.contains(named.fd),
        named.fd >= 0,
    ensures
        ({
            let more = registered(registry, named.fd).0;
            let (left, outcome) = adoption(more, uri);
            &&& outcome == Ok::<_, SourceErrorView>(named)
            &&& left == registry
            &&& adoption(left, uri).1 is Err
            &&& adoption(registered(left, named.fd).0, uri).1 == Ok::<_, SourceErrorView>(named)
        }),
{
    fd_uri::law_the_descriptor_can_be_read_first(uri);
    law_registered_descriptors_await_adoption(registry, named.fd);
}

} // verus!
