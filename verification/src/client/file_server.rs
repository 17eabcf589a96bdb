//! The shared files, as they are asked for and answered.

use std::path::PathBuf;
use vstd::prelude::*;
use vstd::string::*;

use crate::client::utils::{
    decode_url, escape, law_escape_among_plain_text, law_plain_text_is_kept, url_decoded,
};
use crate::number::{
    decimal, law_number_round_trip, lemma_digits_are_alphanumeric, parse_number, push_decimal,
    read_number, socket_address,
};
use crate::text::{
    after_char, before_char, chars_of, find_char, law_trim_start_char, lemma_no_split,
    lemma_split, same_text, starts_with, string_of, trim_start_char, trimmed_start_char,
};

verus! {

/// `std::path::PathBuf`, the path of a file.
#[verifier::external_type_specification]
#[verifier::external_body]
pub struct ExPathBuf(std::path::PathBuf);

/// Files that are shared.
pub struct FileServer {
    path: PathBuf,
    pub port: u16,
}

/// Why a file is not sent.
#[derive(Clone, Copy, Debug, PartialEq, Eq, Structural)]
pub enum FileError {
    /// The file is none of those that are shared.
    Forbidden,
    /// There is no such file.
    NotFound,
    /// What is asked for makes no sense.
    BadRequest,
}

/// What came of looking for a file.
#[derive(Clone, Copy, Debug, PartialEq, Eq, Structural)]
pub enum FileProbe {
    /// The file cannot be opened.
    NotOpened,
    /// The file cannot be measured.
    NotMeasured,
    /// The file is there and has so many bytes.
    Size(u64),
}

/// What a request says of the part of the file that it asks for.
pub enum RangeHeader<'a> {
    /// Nothing.
    Absent,
    /// Something that is no text.
    Unreadable,
    /// This.
    Text(&'a str),
}

/// How a file is sent.
pub struct FileResponse {
    pub status: u16,
    /// Where the part that is sent begins, where it is a part.
    pub seek: Option<u64>,
    /// How many bytes are sent.
    pub length: u64,
    pub headers: Vec<(&'static str, String)>,
}

/// What stands for how a file is sent.
pub struct FileResponseView {
    pub status: u16,
    pub seek: Option<u64>,
    pub length: u64,
    pub headers: Seq<(Seq<char>, Seq<char>)>,
}

impl View for FileResponse {
    type V = FileResponseView;

    open spec fn view(&self) -> FileResponseView {
        FileResponseView {
            status: self.status,
            seek: self.seek,
            length: self.length,
            headers: self.headers@.map_values(|field: (&'static str, String)| (field.0@, field.1@)),
        }
    }
}

/// What `mime_guess` takes for the type of a file with the given extension.
pub uninterp spec fn mime_of_extension(extension: Seq<char>) -> Seq<char>;

/// `mime_guess::from_ext` and the first of its guesses: the type of a file with the given
/// extension. Of a file without one it is `application/octet-stream`.
#[verifier::external_body]
fn guess_mime(extension: &str) -> (mime: String)
    ensures
        mime@ == mime_of_extension(extension@),
        extension@.len() == 0 ==> mime@ == "application/octet-stream"@,
{
    mime_guess::from_ext(extension).first_or_octet_stream().to_string()
}

/// The path, below the shared directory, that a URL's path asks for.
pub open spec fn requested_path(uri_path: Seq<char>) -> Seq<char> {
    url_decoded(trim_start_char(uri_path, '/'))
}

/// The path that `Path::join` makes of a path and the text of another one.
pub uninterp spec fn joined_path(root: PathBuf, relative: Seq<char>) -> PathBuf;

/// Whether `Path::starts_with` finds that a path begins with the parts of another one.
pub uninterp spec fn path_begins_with(path: PathBuf, root: PathBuf) -> bool;

/// The parts that `Path::components` finds in a path, each as it is written.
pub uninterp spec fn path_parts(path: PathBuf) -> Seq<Seq<char>>;

/// The extension that `Path::extension` finds in a path, where there is one and it is text.
pub uninterp spec fn extension_of(path: PathBuf) -> Option<Seq<char>>;

/// `Path::join`: the second path, seen from the first one.
#[verifier::external_body]
fn join_path(root: &PathBuf, relative: &str) -> (path: PathBuf)
    ensures
        path == joined_path(*root, relative@),
{
    root.join(relative)
}

/// `Path::starts_with`: whether a path begins with the parts of another one.
#[verifier::external_body]
fn begins_with(path: &PathBuf, root: &PathBuf) -> (found: bool)
    ensures
        found == path_begins_with(*path, *root),
{
    path.starts_with(root)
}

/// `Path::components`: the parts of a path, each as it is written.
#[verifier::external_body]
fn parts_of(path: &PathBuf) -> (parts: Vec<String>)
    ensures
        texts(parts@) == path_parts(*path),
{
    path.components().map(|part| part.as_os_str().to_string_lossy().into_owned()).collect()
}

/// `Path::extension`: what stands behind the last dot of a file's name, where it is text.
#[verifier::external_body]
fn find_extension(path: &PathBuf) -> (extension: Option<String>)
    ensures
        match extension {
            Some(text) => extension_of(*path) == Some(text@),
            None => extension_of(*path) is None,
        },
{
    path.extension().and_then(|extension| extension.to_str()).map(str::to_owned)
}

/// What texts stand for.
pub open spec fn texts(parts: Seq<String>) -> Seq<Seq<char>> {
    parts.map_values(|part: String| part@)
}

/// Where the parts of a path lead: `.` leads nowhere, and `..` back out of the directory before it.
/// The root of the file system has none above it; above what a path starts at, `..` stays.
pub open spec fn resolved(parts: Seq<Seq<char>>) -> Seq<Seq<char>>
    decreases parts.len(),
{
    if parts.len() == 0 {
        seq![]
    } else {
        let front = resolved(parts.drop_last());
        let part = parts.last();
        if part == "."@ || part == ""@ {
            front
        } else if part != ".."@ || front.len() == 0 || front.last() == ".."@ {
            front.push(part)
        } else if front.last() == "/"@ {
            front
        } else {
            front.drop_last()
        }
    }
}

/// Whether a part of a path leads into what stands before it.
pub open spec fn leads_into(part: Seq<char>) -> bool {
    part != ".."@ && part != "/"@
}

/// Whether a path leads into the directory that another one leads to, or to that directory.
pub open spec fn is_within(root: Seq<Seq<char>>, whole: Seq<Seq<char>>) -> bool {
    let base = resolved(root);
    let place = resolved(whole);
    &&& base.is_prefix_of(place)
    &&& base.len() < place.len() ==> leads_into(place[base.len() as int])
}

/// The path of the file that a URL's path asks for.
pub open spec fn file_path(root: PathBuf, uri_path: Seq<char>) -> PathBuf {
    joined_path(root, requested_path(uri_path))
}

/// Whether the file of the given path is one of those that are shared: the path begins with that
/// of the shared directory, and leads into it.
pub open spec fn is_shared(root: PathBuf, path: PathBuf) -> bool {
    path_begins_with(path, root) && is_within(path_parts(root), path_parts(path))
}

/// The type of a file, by the extension of its name.
pub open spec fn type_for(extension: Option<Seq<char>>) -> Seq<char> {
    match extension {
        Some(extension) => mime_of_extension(extension),
        None => "application/octet-stream"@,
    }
}

/// What a text that may be missing stands for.
pub open spec fn optional_text(text: Option<&str>) -> Option<Seq<char>> {
    match text {
        Some(text) => Some(text@),
        None => None,
    }
}

/// Where a file is, whether it is shared, and what type it has.
pub struct Located {
    pub path: PathBuf,
    pub shared: bool,
    pub mime: String,
}

/// The prefix of a range that counts bytes.
pub open spec fn range_unit() -> Seq<char> {
    "bytes="@
}

/// The first of the ranges that a request asks for, with what stands before it cut off.
pub open spec fn first_range(header: Seq<char>) -> Seq<char> {
    before_char(header.skip(range_unit().len() as int), ',')
}

/// The last byte that a range asks for, as it is written: nothing where the range is open.
pub open spec fn range_end_text(range: Seq<char>) -> Seq<char> {
    match after_char(range, '-') {
        Some(rest) => before_char(rest, '-'),
        None => seq![],
    }
}

/// The first and the last byte of the part of a file of `size` bytes that a request asks for.
///
/// Nothing where it asks for none that the file has.
pub open spec fn requested_range(header: Seq<char>, size: nat) -> Option<(nat, nat)> {
    if !range_unit().is_prefix_of(header) {
        None
    } else {
        let range = first_range(header);
        let end_text = range_end_text(range);
        let end = if end_text.len() == 0 {
            Some((size - 1) as nat)
        } else {
            parse_number(end_text, 10, u64::MAX as nat)
        };
        match (parse_number(before_char(range, '-'), 10, u64::MAX as nat), end) {
            (Some(first), Some(last)) => if first <= last < size {
                Some((first, last))
            } else {
                None
            },
            _ => None,
        }
    }
}

/// The header fields with which a file is sent, whole or in part.
pub open spec fn file_fields(
    mime: Seq<char>,
    length: nat,
    range: Option<(nat, nat)>,
    size: nat,
) -> Seq<(Seq<char>, Seq<char>)> {
    let front = seq![("content-type"@, mime), ("content-length"@, decimal(length))];
    let back = seq![("accept-ranges"@, "bytes"@), ("content-disposition"@, "inline"@)];
    match range {
        Some((first, last)) => front.push(
            (
                "content-range"@,
                "bytes "@ + decimal(first) + "-"@ + decimal(last) + "/"@ + decimal(size),
            ),
        ) + back,
        None => front + back,
    }
}

/// How a file of `size` bytes is sent, whole or in part.
pub open spec fn file_response(
    mime: Seq<char>,
    range: Option<(nat, nat)>,
    size: nat,
) -> FileResponseView {
    match range {
        Some((first, last)) => FileResponseView {
            status: 206,
            seek: Some(first as u64),
            length: (last - first + 1) as u64,
            headers: file_fields(mime, (last - first + 1) as nat, range, size),
        },
        None => FileResponseView {
            status: 200,
            seek: None,
            length: size as u64,
            headers: file_fields(mime, size, range, size),
        },
    }
}

/// The range that a request asks for, where what it says of it is text.
pub open spec fn range_in(header: RangeHeader, size: nat) -> Option<(nat, nat)> {
    match header {
        RangeHeader::Text(text) => requested_range(text@, size),
        _ => None,
    }
}

/// How a file is answered: a file that is not shared is forbidden, one that cannot be opened or
/// measured is not found, and a range that is no text makes no sense.
pub open spec fn answers_file(
    shared: bool,
    mime: Seq<char>,
    probe: FileProbe,
    range: RangeHeader,
    response: Result<FileResponse, FileError>,
) -> bool {
    if !shared {
        response == Err::<FileResponse, FileError>(FileError::Forbidden)
    } else {
        match probe {
            FileProbe::Size(size) => if range is Unreadable {
                response == Err::<FileResponse, FileError>(FileError::BadRequest)
            } else {
                response matches Ok(r) && r@ == file_response(
                    mime,
                    range_in(range, size as nat),
                    size as nat,
                )
            },
            _ => response == Err::<FileResponse, FileError>(FileError::NotFound),
        }
    }
}

/// The numbers that a pair of machine numbers stands for.
pub open spec fn range_view(range: Option<(u64, u64)>) -> Option<(nat, nat)> {
    match range {
        Some((first, last)) => Some((first as nat, last as nat)),
        None => None,
    }
}

/// Whether a part of a path is a name.
pub open spec fn is_plain(part: Seq<char>) -> bool {
    part != ".."@ && part != "/"@ && part != "."@ && part != ""@
}

/// Parts that do not climb only add to where a path leads.
proof fn lemma_parts_add(front: Seq<Seq<char>>, tail: Seq<Seq<char>>)
    requires
        forall|i: int| 0 <= i < tail.len() ==> leads_into(#[trigger] tail[i]),
    ensures
        ({
            let base = resolved(front);
            let place = resolved(front + tail);
            &&& base.is_prefix_of(place)
            &&& base.len() < place.len() ==> leads_into(place[base.len() as int])
        }),
    decreases tail.len(),
{
    if tail.len() == 0 {
        assert(front + tail == front);
    } else {
        let before = tail.drop_last();
        assert forall|i: int| 0 <= i < before.len() implies leads_into(#[trigger] before[i]) by {
            assert(before[i] == tail[i]);
        }
        lemma_parts_add(front, before);
        assert((front + tail).drop_last() == front + before);
        assert(leads_into(tail[tail.len() - 1]));
    }
}

/// A path that continues that of the shared directory without climbing leads into it.
pub proof fn law_plain_path_is_within(root: Seq<Seq<char>>, tail: Seq<Seq<char>>)
    requires
        forall|i: int| 0 <= i < tail.len() ==> leads_into(#[trigger] tail[i]),
    ensures
        is_within(root, root + tail),
{
    lemma_parts_add(root, tail);
}

/// A path that climbs above the shared directory does not lead into it, unless that is the root of
/// the file system.
pub proof fn law_parent_is_not_within(root: Seq<Seq<char>>)
    requires
        resolved(root).len() > 0 ==> resolved(root).last() != "/"@,
    ensures
        !is_within(root, root.push(".."@)),
{
    reveal_strlit("..");
    reveal_strlit(".");
    reveal_strlit("");
    assert("."@.len() == 1 && ".."@.len() == 2 && ""@.len() == 0);
    assert(root.push(".."@).drop_last() == root);
    let base = resolved(root);
    let place = resolved(root.push(".."@));
    if base.len() == 0 || base.last() == ".."@ {
        assert(place == base.push(".."@));
        assert(place[base.len() as int] == ".."@);
    } else {
        assert(place == base.drop_last());
    }
}

/// A path that climbs out of the shared directory leads into it only where it comes back by the
/// directory's own name; into what stands beside the directory it does not lead.
pub proof fn law_neighbour_is_not_within(
    root: Seq<Seq<char>>,
    name: Seq<char>,
    tail: Seq<Seq<char>>,
)
    requires
        resolved(root).len() > 0 && is_plain(resolved(root).last()),
        is_plain(name),
        forall|i: int| 0 <= i < tail.len() ==> leads_into(#[trigger] tail[i]),
    ensures
        is_within(root, root.push(".."@).push(name) + tail) <==> name == resolved(root).last(),
{
    reveal_strlit("..");
    reveal_strlit(".");
    reveal_strlit("");
    assert("."@.len() == 1 && ".."@.len() == 2 && ""@.len() == 0);
    let base = resolved(root);
    let above = root.push(".."@);
    let beside = above.push(name);
    assert(above.drop_last() == root);
    assert(resolved(above) == base.drop_last());
    assert(beside.drop_last() == above);
    assert(resolved(beside) == base.drop_last().push(name));
    lemma_parts_add(beside, tail);
    let place = resolved(beside + tail);
    assert(place[base.len() - 1] == name) by {
        assert(place.take(base.len() as int) == resolved(beside));
        assert(resolved(beside)[base.len() - 1] == name);
        assert(place.take(base.len() as int)[base.len() - 1] == place[base.len() - 1]);
    }
    if name == base.last() {
        assert(base.drop_last().push(name) == base);
    } else {
        assert(!base.is_prefix_of(place)) by {
            if base.is_prefix_of(place) {
                assert(place[base.len() - 1] == base[base.len() - 1]);
            }
        }
    }
}

/// Where a path leads, `..` stands only at the beginning.
proof fn lemma_climbing_comes_first(parts: Seq<Seq<char>>, i: int, j: int)
    requires
        0 <= j <= i < resolved(parts).len(),
        resolved(parts)[i] == ".."@,
    ensures
        resolved(parts)[j] == ".."@,
    decreases parts.len(),
{
    let front = resolved(parts.drop_last());
    if i < front.len() {
        lemma_climbing_comes_first(parts.drop_last(), i, j);
    } else if j < i {
        lemma_climbing_comes_first(parts.drop_last(), front.len() - 1, j);
    }
}

/// Whatever a URL asks for, a file that is shared lies in the shared directory: its path leads to
/// where the directory is, and from there on never out again.
pub proof fn law_shared_file_lies_in_directory(root: PathBuf, uri_path: Seq<char>)
    requires
        is_shared(root, file_path(root, uri_path)),
    ensures
        ({
            let base = resolved(path_parts(root));
            let place = resolved(path_parts(file_path(root, uri_path)));
            &&& base.is_prefix_of(place)
            &&& forall|i: int| base.len() <= i < place.len() ==> #[trigger] place[i] != ".."@
        }),
{
    let parts = path_parts(file_path(root, uri_path));
    let base = resolved(path_parts(root));
    let place = resolved(parts);
    assert forall|i: int| base.len() <= i < place.len() implies #[trigger] place[i] != ".."@ by {
        if place[i] == ".."@ {
            lemma_climbing_comes_first(parts, i, base.len() as int);
        }
    }
}

/// Decimal digits hold neither of the two signs that part ranges.
proof fn lemma_decimal_has_no_sign(n: nat)
    ensures
        !decimal(n).contains('-'),
        !decimal(n).contains(','),
{
    lemma_digits_are_alphanumeric(n, 10);
}

/// How a request asks for the bytes from `first` to `last`.
pub open spec fn closed_range(first: nat, last: nat) -> Seq<char> {
    range_unit() + (decimal(first) + seq!['-'] + decimal(last))
}

/// How a request asks for the bytes from `first` on.
pub open spec fn open_range(first: nat) -> Seq<char> {
    range_unit() + (decimal(first) + seq!['-'])
}

/// A part of a file that is asked for by its first and last byte is the part that is sent, where
/// the file has it; else none is.
pub proof fn law_closed_range(first: nat, last: nat, size: nat)
    requires
        first <= u64::MAX,
        last <= u64::MAX,
    ensures
        requested_range(closed_range(first, last), size) == if first <= last < size {
            Some((first, last))
        } else {
            None
        },
{
    let header = closed_range(first, last);
    let range = decimal(first) + seq!['-'] + decimal(last);
    assert(header.skip(range_unit().len() as int) == range);
    assert(header.take(range_unit().len() as int) == range_unit());
    lemma_decimal_has_no_sign(first);
    lemma_decimal_has_no_sign(last);
    assert(!range.contains(',')) by {
        assert forall|i: int| 0 <= i < range.len() implies range[i] != ',' by {
            if i < decimal(first).len() {
                assert(range[i] == decimal(first)[i]);
            } else if i > decimal(first).len() {
                assert(range[i] == decimal(last)[i - decimal(first).len() - 1]);
            }
        }
    }
    lemma_no_split(range, ',');
    lemma_split(decimal(first), '-', decimal(last));
    lemma_no_split(decimal(last), '-');
    lemma_digits_are_alphanumeric(last, 10);
    law_number_round_trip(first, 10, u64::MAX as nat);
    law_number_round_trip(last, 10, u64::MAX as nat);
}

/// A part of a file that is asked for by its first byte alone reaches to the end of the file.
pub proof fn law_open_range(first: nat, size: nat)
    requires
        first <= u64::MAX,
    ensures
        requested_range(open_range(first), size) == if first < size {
            Some((first, (size - 1) as nat))
        } else {
            None
        },
{
    let header = open_range(first);
    let range = decimal(first) + seq!['-'];
    assert(header.skip(range_unit().len() as int) == range);
    assert(header.take(range_unit().len() as int) == range_unit());
    lemma_decimal_has_no_sign(first);
    assert(!range.contains(',')) by {
        assert forall|i: int| 0 <= i < range.len() implies range[i] != ',' by {
            if i < decimal(first).len() {
                assert(range[i] == decimal(first)[i]);
            }
        }
    }
    lemma_no_split(range, ',');
    lemma_split(decimal(first), '-', seq![]);
    assert(decimal(first) + seq!['-'] + Seq::<char>::empty() == range);
    lemma_no_split(Seq::<char>::empty(), '-');
    law_number_round_trip(first, 10, u64::MAX as nat);
}

/// Whatever a request asks for, what is sent lies within the file, and is as long as is said.
pub proof fn law_sent_part_lies_in_file(header: Seq<char>, mime: Seq<char>, size: nat)
    requires
        size <= u64::MAX,
    ensures
        match requested_range(header, size) {
            Some((first, last)) => {
                let response = file_response(mime, Some((first, last)), size);
                &&& first <= last < size
                &&& response.seek == Some(first as u64)
                &&& first + response.length == last + 1
                &&& response.headers[1] == ("content-length"@, decimal(response.length as nat))
            },
            None => {
                let response = file_response(mime, None, size);
                &&& response.seek is None
                &&& response.length == size
                &&& response.headers[1] == ("content-length"@, decimal(response.length as nat))
            },
        },
{
}

impl FileError {
    /// The number of the status.
    pub fn status(&self) -> (status: u16)
        ensures
            status == match *self {
                FileError::Forbidden => 403u16,
                FileError::NotFound => 404u16,
                FileError::BadRequest => 400u16,
            },
    {
        match self {
            FileError::Forbidden => 403,
            FileError::NotFound => 404,
            FileError::BadRequest => 400,
        }
    }
}

impl View for FileServer {
    type V = (PathBuf, u16);

    closed spec fn view(&self) -> (PathBuf, u16) {
        (self.path, self.port)
    }
}

impl FileServer {
    pub fn new(path: PathBuf, port: u16) -> (server: Self)
        ensures
            server@ == (path, port),
    {
        Self { path, port }
    }

    /// The path of the files that are shared, and the port at which they are asked for.
    pub fn into_parts(self) -> (parts: (PathBuf, u16))
        ensures
            parts == self@,
    {
        (self.path, self.port)
    }

    /// The address at which the files are asked for: it is reached from this machine alone.
    pub fn listen_address(&self) -> (address: String)
        ensures
            address@ == "127.0.0.1:"@ + decimal(self@.1 as nat),
            address@ == socket_address("127.0.0.1"@, self@.1),
    {
        proof {
            reveal_strlit("127.0.0.1:");
            reveal_strlit("127.0.0.1");
            reveal_strlit(":");
            assert("127.0.0.1:"@ == "127.0.0.1"@ + ":"@);
        }
        let mut address = "127.0.0.1:".to_owned();
        push_decimal(&mut address, self.port as u64);
        address
    }

    /// The path, below the shared one, of the file that a URL's path asks for.
    pub fn relative_path(uri_path: &str) -> (path: String)
        ensures
            path@ == requested_path(uri_path@),
    {
        let chars = chars_of(uri_path);
        let stripped = string_of(trimmed_start_char(chars.as_slice(), '/'));
        decode_url(stripped.as_str())
    }

    /// Where the parts of a path lead.
    fn resolve(parts: &Vec<String>) -> (place: Vec<String>)
        ensures
            texts(place@) == resolved(texts(parts@)),
    {
        let mut place: Vec<String> = Vec::new();
        let ghost all = texts(parts@);
        for i in 0..parts.len()
            invariant
                all == texts(parts@),
                texts(place@) == resolved(all.take(i as int)),
        {
            assert(all.take(i + 1).drop_last() == all.take(i as int));
            let part = parts[i].as_str();
            assert(all.take(i + 1).last() == part@);
            let ghost before = place@;
            let count = place.len();
            if count > 0 {
                assert(texts(before).last() == before.last()@);
            }
            if same_text(part, ".") || same_text(part, "") {
                assert(texts(place@) == resolved(all.take(i + 1)));
            } else if !same_text(part, "..") || count == 0 || same_text(
                place[count - 1].as_str(),
                "..",
            ) {
                place.push(part.to_owned());
                assert(texts(place@) == texts(before).push(part@));
            } else if !same_text(place[count - 1].as_str(), "/") {
                place.pop();
                assert(texts(place@) == texts(before).drop_last());
            }
        }
        assert(all.take(all.len() as int) == all);
        place
    }

    /// Whether the parts of a path lead into the directory that those of another one lead to, or
    /// to that directory.
    pub fn leads_within(root: &Vec<String>, whole: &Vec<String>) -> (within: bool)
        ensures
            within == is_within(texts(root@), texts(whole@)),
    {
        let base = Self::resolve(root);
        let place = Self::resolve(whole);
        let count = base.len();
        if place.len() < count {
            return false;
        }
        for i in 0..count
            invariant
                count == base@.len(),
                count <= place@.len(),
                texts(base@) == resolved(texts(root@)),
                texts(place@) == resolved(texts(whole@)),
                texts(base@).take(i as int) == texts(place@).take(i as int),
        {
            assert(texts(base@)[i as int] == base@[i as int]@);
            assert(texts(place@)[i as int] == place@[i as int]@);
            assert(texts(place@).subrange(0, count as int)[i as int] == texts(place@)[i as int]);
            if !same_text(base[i].as_str(), place[i].as_str()) {
                return false;
            }
            assert(texts(base@).take(i + 1) == texts(base@).take(i as int).push(base@[i as int]@));
            assert(texts(place@).take(i + 1) == texts(place@).take(i as int).push(
                place@[i as int]@,
            ));
        }
        assert(texts(base@).take(count as int) == texts(base@));
        if place.len() == count {
            return true;
        }
        assert(texts(place@)[count as int] == place@[count as int]@);
        let next = place[count].as_str();
        !same_text(next, "..") && !same_text(next, "/")
    }

    /// Where the file is that a URL's path asks for, whether it is shared, and what type it has.
    pub fn locate(root: &PathBuf, uri_path: &str) -> (located: Located)
        ensures
            ({
                let path = file_path(*root, uri_path@);
                &&& located.path == path
                &&& located.shared == is_shared(*root, path)
                &&& located.mime@ == type_for(extension_of(path))
            }),
    {
        let relative = Self::relative_path(uri_path);
        let path = join_path(root, relative.as_str());
        let shared = begins_with(&path, root) && Self::leads_within(
            &parts_of(root),
            &parts_of(&path),
        );
        let mime = match find_extension(&path) {
            Some(extension) => Self::mime_type(Some(extension.as_str())),
            None => Self::mime_type(None),
        };
        Located { path, shared, mime }
    }

    /// The type of a file, by the extension of its name.
    pub fn mime_type(extension: Option<&str>) -> (mime: String)
        ensures
            mime@ == type_for(optional_text(extension)),
    {
        match extension {
            Some(extension) => guess_mime(extension),
            None => {
                proof {
                    reveal_strlit("");
                }
                guess_mime("")
            },
        }
    }

    /// The first and the last byte of the part of a file that a request asks for.
    ///
    /// An empty file has no part that could be asked for.
    pub fn parse_range_header(range_header: &str, file_size: u64) -> (range: Option<(u64, u64)>)
        ensures
            range_view(range) == requested_range(range_header@, file_size as nat),
    {
        if !starts_with(range_header, "bytes=") {
            return None;
        }
        let chars = chars_of(range_header);
        let unit = chars_of("bytes=").len();
        let ranges = vstd::slice::slice_subrange(chars.as_slice(), unit, chars.len());
        assert(ranges@ == range_header@.skip(range_unit().len() as int));
        let comma = find_char(ranges, ',');
        let range = vstd::slice::slice_subrange(ranges, 0, comma);
        assert(range@ == first_range(range_header@));
        let dash = find_char(range, '-');
        let start_text = vstd::slice::slice_subrange(range, 0, dash);
        assert(start_text@ == before_char(range@, '-'));
        let Some(start) = read_number(start_text, 10, u64::MAX) else {
            return None;
        };
        let end_text = if dash < range.len() {
            let rest = vstd::slice::slice_subrange(range, dash + 1, range.len());
            assert(after_char(range@, '-') == Some(rest@));
            let next = find_char(rest, '-');
            let text = vstd::slice::slice_subrange(rest, 0, next);
            assert(text@ == before_char(rest@, '-'));
            text
        } else {
            vstd::slice::slice_subrange(range, 0, 0)
        };
        assert(end_text@ == range_end_text(range@));
        if file_size == 0 {
            return None;
        }
        let end = if end_text.len() == 0 {
            file_size - 1
        } else {
            let Some(end) = read_number(end_text, 10, u64::MAX) else {
                return None;
            };
            end
        };
        if start <= end && end < file_size {
            Some((start, end))
        } else {
            None
        }
    }

    /// Decides how the file is sent that a URL's path asks for, from what came of looking for it and
    /// from what is asked for of it.
    pub fn stream_file(
        root: &PathBuf,
        uri_path: &str,
        probe: FileProbe,
        range: RangeHeader,
    ) -> (response: Result<FileResponse, FileError>)
        ensures
            answers_file(
                is_shared(*root, file_path(*root, uri_path@)),
                type_for(extension_of(file_path(*root, uri_path@))),
                probe,
                range,
                response,
            ),
    {
        let located = Self::locate(root, uri_path);
        Self::answer_file(located.shared, located.mime, probe, range)
    }

    /// Decides how a file of the given type is sent, from whether it is shared, from what came of
    /// looking for it and from what is asked for of it.
    pub fn answer_file(
        shared: bool,
        mime: String,
        probe: FileProbe,
        range: RangeHeader,
    ) -> (response: Result<FileResponse, FileError>)
        ensures
            answers_file(shared, mime@, probe, range, response),
    {
        if !shared {
            return Err(FileError::Forbidden);
        }
        let size = match probe {
            FileProbe::Size(size) => size,
            _ => {
                return Err(FileError::NotFound);
            },
        };
        let part = match range {
            RangeHeader::Absent => None,
            RangeHeader::Unreadable => {
                return Err(FileError::BadRequest);
            },
            RangeHeader::Text(text) => Self::parse_range_header(text, size),
        };
        let mut headers: Vec<(&'static str, String)> = Vec::new();
        let length = match part {
            Some((start, end)) => end - start + 1,
            None => size,
        };
        let mut length_text = String::new();
        push_decimal(&mut length_text, length);
        headers.push(("content-type", mime));
        headers.push(("content-length", length_text));
        let (status, seek): (u16, Option<u64>) = match part {
            Some((start, end)) => {
                let mut range_text = String::new();
                range_text.append("bytes ");
                push_decimal(&mut range_text, start);
                range_text.append("-");
                push_decimal(&mut range_text, end);
                range_text.append("/");
                push_decimal(&mut range_text, size);
                headers.push(("content-range", range_text));
                (206, Some(start))
            },
            None => (200, None),
        };
        headers.push(("accept-ranges", "bytes".to_owned()));
        headers.push(("content-disposition", "inline".to_owned()));
        let response = FileResponse { status, seek, length, headers };
        assert(response@.headers =~= file_fields(
            mime@,
            length as nat,
            range_in(range, size as nat),
            size as nat,
        ));
        Ok(response)
    }
}

/// Whether a response has this field.
pub open spec fn has_field(response: FileResponseView, name: Seq<char>, value: Seq<char>) -> bool {
    exists|i: int|
        0 <= i < response.headers.len() && #[trigger] response.headers[i] == (name, value)
}

/// Whether a response has a field of this name.
pub open spec fn names_field(response: FileResponseView, name: Seq<char>) -> bool {
    exists|i: int| 0 <= i < response.headers.len() && (#[trigger] response.headers[i]).0 == name
}

/// How a file that is shared and there is answered, whatever part of it is asked for: a part that
/// it has, also one that begins with its first byte, comes with status 206 and a field that names
/// the first byte, the last byte and the size; else the whole file comes with status 200 and
/// without such a field.
///
/// Either way the type, the length, that parts can be asked for, and that it is to be shown are
/// said.
pub proof fn law_file_is_answered(
    mime: Seq<char>,
    size: u64,
    range: RangeHeader,
    response: Result<FileResponse, FileError>,
)
    requires
        answers_file(true, mime, FileProbe::Size(size), range, response),
        !(range is Unreadable),
    ensures
        ({
            let asked = match range {
                RangeHeader::Text(text) => requested_range(text@, size as nat),
                _ => None,
            };
            &&& response matches Ok(r)
            &&& match asked {
                Some((first, last)) => {
                    &&& r.status == 206
                    &&& r.seek == Some(first as u64)
                    &&& r.length == last - first + 1
                    &&& has_field(
                        r@,
                        "content-range"@,
                        "bytes "@ + decimal(first) + "-"@ + decimal(last) + "/"@ + decimal(
                            size as nat,
                        ),
                    )
                },
                None => {
                    &&& r.status == 200
                    &&& r.seek is None
                    &&& r.length == size
                    &&& !names_field(r@, "content-range"@)
                },
            }
            &&& has_field(r@, "content-type"@, mime)
            &&& has_field(r@, "content-length"@, decimal(r.length as nat))
            &&& has_field(r@, "accept-ranges"@, "bytes"@)
            &&& has_field(r@, "content-disposition"@, "inline"@)
        }),
{
    reveal_strlit("content-range");
    reveal_strlit("content-type");
    reveal_strlit("content-length");
    reveal_strlit("accept-ranges");
    reveal_strlit("content-disposition");
    let r = response->Ok_0;
    let asked = match range {
        RangeHeader::Text(text) => requested_range(text@, size as nat),
        _ => None,
    };
    let fields = r@.headers;
    assert(fields[0] == ("content-type"@, mime));
    assert(fields[1] == ("content-length"@, decimal(r.length as nat)));
    match asked {
        Some((first, last)) => {
            assert(fields[2] == (
                "content-range"@,
                "bytes "@ + decimal(first) + "-"@ + decimal(last) + "/"@ + decimal(size as nat),
            ));
            assert(fields[3] == ("accept-ranges"@, "bytes"@));
            assert(fields[4] == ("content-disposition"@, "inline"@));
        },
        None => {
            assert(fields.len() == 4);
            assert(fields[2] == ("accept-ranges"@, "bytes"@));
            assert(fields[3] == ("content-disposition"@, "inline"@));
            assert("content-range"@.len() == 13 && "content-type"@.len() == 12
                && "content-length"@.len() == 14 && "content-disposition"@.len() == 19);
            assert("content-range"@[0] == 'c' && "accept-ranges"@[0] == 'a');
            assert forall|i: int| 0 <= i < fields.len() implies (#[trigger] fields[i]).0
                != "content-range"@ by {
                if i == 0 {
                } else if i == 1 {
                } else if i == 2 {
                } else {
                    assert(i == 3);
                }
            }
        },
    }
}

/// A file that is not shared is refused whatever else holds of it; of a shared one, that it is not
/// there comes before what is asked for of it.
pub proof fn law_file_is_refused(
    shared: bool,
    mime: Seq<char>,
    probe: FileProbe,
    range: RangeHeader,
    response: Result<FileResponse, FileError>,
)
    requires
        answers_file(shared, mime, probe, range, response),
    ensures
        !shared <==> response == Err::<FileResponse, FileError>(FileError::Forbidden),
        shared && !(probe is Size) <==> response == Err::<FileResponse, FileError>(
            FileError::NotFound,
        ),
        shared && probe is Size && range is Unreadable <==> response == Err::<
            FileResponse,
            FileError,
        >(FileError::BadRequest),
        response is Ok <==> shared && probe is Size && !(range is Unreadable),
{
}

/// Of several ranges the first counts, whatever stands behind it; and what does not count bytes is
/// no range.
pub proof fn law_first_range_counts(
    range: Seq<char>,
    more: Seq<char>,
    header: Seq<char>,
    size: nat,
)
    requires
        !range.contains(','),
    ensures
        requested_range(range_unit() + range + seq![','] + more, size) == requested_range(
            range_unit() + range,
            size,
        ),
        range_unit() == seq!['b', 'y', 't', 'e', 's', '='],
        !range_unit().is_prefix_of(header) ==> requested_range(header, size) is None,
{
    reveal_strlit("bytes=");
    assert(range_unit() == seq!['b', 'y', 't', 'e', 's', '=']);
    let unit = range_unit();
    let long = unit + range + seq![','] + more;
    let short = unit + range;
    assert(long.skip(unit.len() as int) == range + seq![','] + more);
    assert(short.skip(unit.len() as int) == range);
    assert(long.subrange(0, unit.len() as int) == unit);
    assert(short.subrange(0, unit.len() as int) == unit);
    lemma_split(range, ',', more);
    lemma_no_split(range, ',');
}

/// A range is one of the file's where its first byte, as it is written, is a number, and its last
/// byte a number or left out, and the first is no later than the last and the last is in the file;
/// and only there.
pub proof fn law_range_of_texts(first: Seq<char>, last: Seq<char>, size: nat)
    requires
        !first.contains('-') && !first.contains(','),
        !last.contains('-') && !last.contains(','),
    ensures
        ({
            let start = parse_number(first, 10, u64::MAX as nat);
            let end = if last.len() == 0 {
                Some((size - 1) as nat)
            } else {
                parse_number(last, 10, u64::MAX as nat)
            };
            let found = requested_range(range_unit() + (first + seq!['-'] + last), size);
            &&& (start is Some && end is Some && start->0 <= end->0 < size ==> found == Some(
                (start->0, end->0),
            ))
            &&& (!(start is Some && end is Some && start->0 <= end->0 < size) ==> found is None)
        }),
{
    let range = first + seq!['-'] + last;
    let header = range_unit() + range;
    assert(header.skip(range_unit().len() as int) == range);
    assert(header.subrange(0, range_unit().len() as int) == range_unit());
    assert(!range.contains(',')) by {
        assert forall|i: int| 0 <= i < range.len() implies range[i] != ',' by {
            if i < first.len() {
                assert(range[i] == first[i]);
            } else if i > first.len() {
                assert(range[i] == last[i - first.len() - 1]);
            }
        }
    }
    lemma_no_split(range, ',');
    lemma_split(first, '-', last);
    lemma_no_split(last, '-');
}

/// Slashes before a URL's path do not matter, whatever follows them; a path without escapes is asked
/// for as it is, and one with an escape in it with the character that was escaped.
pub proof fn law_requested_path(
    count: nat,
    path: Seq<char>,
    plain: Seq<char>,
    c: char,
    rest: Seq<char>,
)
    requires
        path.len() > 0 ==> path[0] != '/',
        !plain.contains('%'),
        plain.len() > 0 && plain[0] != '/',
        (c as nat) < 256,
    ensures
        requested_path(Seq::new(count, |i: int| '/') + path) == url_decoded(path),
        requested_path(Seq::new(count, |i: int| '/') + plain) == plain,
        requested_path(Seq::new(count, |i: int| '/') + (plain + escape(c) + rest)) == plain + seq![
            c,
        ] + url_decoded(rest),
{
    law_trim_start_char(count, path, '/');
    law_trim_start_char(count, plain, '/');
    law_plain_text_is_kept(plain);
    let mixed = plain + escape(c) + rest;
    assert(mixed[0] == plain[0]);
    law_trim_start_char(count, mixed, '/');
    law_escape_among_plain_text(plain, c, rest);
}

/// A name leads into what stands before it, `.` leads nowhere, and a name with `..` behind it leads
/// back to where the path was, however deep that is.
pub proof fn law_where_parts_lead(front: Seq<Seq<char>>, name: Seq<char>)
    requires
        is_plain(name),
    ensures
        resolved(front.push(name)) == resolved(front).push(name),
        resolved(front.push("."@)) == resolved(front),
        resolved(front.push(name).push(".."@)) == resolved(front),
        resolved(Seq::<Seq<char>>::empty()).len() == 0,
        resolved(seq!["/"@]) == seq!["/"@],
        resolved(seq!["/"@, ".."@]) == seq!["/"@],
        resolved(seq![".."@]) == seq![".."@],
        resolved(seq![".."@, ".."@]) == seq![".."@, ".."@],
{
    reveal_strlit("..");
    reveal_strlit(".");
    reveal_strlit("");
    reveal_strlit("/");
    assert("."@.len() == 1 && ".."@.len() == 2 && ""@.len() == 0 && "/"@.len() == 1);
    assert("."@[0] == '.' && "/"@[0] == '/');
    assert(front.push(name).drop_last() == front);
    assert(front.push("."@).drop_last() == front);
    assert(front.push(name).push(".."@).drop_last() == front.push(name));
    let entered = resolved(front.push(name));
    assert(entered == resolved(front).push(name));
    assert(entered.last() == name && entered.len() > 0);
    assert(front.push(name).push(".."@).last() == ".."@);
    assert(resolved(front.push(name).push(".."@)) == entered.drop_last());
    assert(entered.drop_last() == resolved(front));
    let nowhere = Seq::<Seq<char>>::empty();
    assert(resolved(nowhere) == nowhere);
    assert(seq!["/"@].drop_last() == nowhere);
    assert(nowhere.push("/"@) == seq!["/"@]);
    assert(seq!["/"@, ".."@].drop_last() == seq!["/"@]);
    assert(resolved(seq!["/"@]) == seq!["/"@]);
    assert(seq![".."@].drop_last() == nowhere);
    assert(nowhere.push(".."@) == seq![".."@]);
    assert(resolved(seq![".."@]) == seq![".."@]);
    assert(seq![".."@, ".."@].drop_last() == seq![".."@]);
    assert(seq![".."@].push(".."@) == seq![".."@, ".."@]);
}

/// A file is shared where its path both begins with that of the shared directory and leads into it;
/// its type is that of its extension, and where it has none, that of any bytes.
pub proof fn law_shared_file_and_its_type(root: PathBuf, path: PathBuf, extension: Seq<char>)
    ensures
        is_shared(root, path) ==> path_begins_with(path, root),
        path_begins_with(path, root) ==> (is_shared(root, path) <==> is_within(
            path_parts(root),
            path_parts(path),
        )),
        type_for(Some(extension)) == mime_of_extension(extension),
        type_for(None) == "application/octet-stream"@,
{
}

/// Texts stand for their characters, and a response for its status, its place, its length and all
/// its fields, one by one.
pub proof fn law_views_of_files(parts: Seq<String>, response: FileResponse, i: int)
    ensures
        texts(parts).len() == parts.len(),
        0 <= i < parts.len() ==> texts(parts)[i] == parts[i]@,
        response@.status == response.status,
        response@.seek == response.seek,
        response@.length == response.length,
        response@.headers.len() == response.headers@.len(),
        0 <= i < response.headers@.len() ==> response@.headers[i] == (
            response.headers@[i].0@,
            response.headers@[i].1@,
        ),
{
}

} // verus!
