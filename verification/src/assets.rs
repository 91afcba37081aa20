//! The caching policy for static assets: which files of the public directory
//! get a route, under which URL path, and which of them may be cached for
//! ever.
//!
//! A file whose name carries a content fingerprint changes its name whenever
//! its content changes, so a client may keep it without asking again.

use crate::headers::header_entries;
use crate::headers::static_name;
use crate::headers::text_value;
use crate::headers::try_insert;
use crate::headers::with_replaced;
use crate::headers::HeaderLimitReached;
use crate::text::ascii_bytes;
use http::HeaderMap;
use vstd::prelude::*;
use vstd::string::StringExecFns;

verus! {

/// The marker that stands before the fingerprint in a file name.
pub open spec fn fingerprint_marker() -> Seq<char> {
    seq!['-', 'd', 'x', 'h']
}

/// A hexadecimal digit, in either case.
pub open spec fn is_hex_digit(c: char) -> bool {
    ('0' <= c && c <= '9') || ('a' <= c && c <= 'f') || ('A' <= c && c <= 'F')
}

/// The marker stands in `name` at position `at`.
pub open spec fn marker_at(name: Seq<char>, at: int) -> bool {
    &&& 0 <= at
    &&& at + 4 <= name.len()
    &&& name.subrange(at, at + 4) == fingerprint_marker()
}

/// The marker stands at `at` and nowhere after it.
pub open spec fn last_marker_at(name: Seq<char>, at: int) -> bool {
    &&& marker_at(name, at)
    &&& forall|later: int| at < later ==> !marker_at(name, later)
}

/// A fingerprint stands in `name` between the last marker, at `at`, and `end`:
/// at least one character, hexadecimal digits only, and after them a dot or the
/// end of the name.
pub open spec fn fingerprint_between(name: Seq<char>, at: int, end: int) -> bool {
    &&& last_marker_at(name, at)
    &&& at + 4 < end <= name.len()
    &&& forall|i: int| at + 4 <= i < end ==> is_hex_digit(#[trigger] name[i])
    &&& (end == name.len() || name[end] == '.')
}

/// A dot stands in `name` at position `at`.
pub open spec fn dot_at(name: Seq<char>, at: int) -> bool {
    0 <= at < name.len() && name[at] == '.'
}

/// The one dot of `name` stands at `at`.
pub open spec fn only_dot_at(name: Seq<char>, at: int) -> bool {
    &&& dot_at(name, at)
    &&& forall|other: int| dot_at(name, other) ==> other == at
}

/// The name has more than one dot.
pub open spec fn has_several_dots(name: Seq<char>) -> bool {
    exists|a: int, b: int| a != b && #[trigger] dot_at(name, a) && #[trigger] dot_at(name, b)
}

/// The name before its extension: what stands before the one dot of the name,
/// and the whole name where it has no dot.
pub open spec fn stem(name: Seq<char>) -> Seq<char> {
    if exists|at: int| only_dot_at(name, at) {
        name.take(choose|at: int| only_dot_at(name, at))
    } else {
        name
    }
}

/// The text ends with the marker and at least one hexadecimal digit after it.
pub open spec fn ends_with_fingerprint(text: Seq<char>) -> bool {
    exists|at: int|
        {
            &&& #[trigger] marker_at(text, at)
            &&& at + 4 < text.len()
            &&& forall|i: int| at + 4 <= i < text.len() ==> is_hex_digit(#[trigger] text[i])
        }
}

/// The file name carries a content fingerprint: the name before its extension
/// ends with the marker and at least one hexadecimal digit.
///
/// Where the name has several dots, any of them may begin the extension; there
/// the digits after the last marker of the name are looked at, and they must
/// end at a dot or with the name.
pub open spec fn looks_immutable(name: Seq<char>) -> bool {
    if has_several_dots(name) {
        exists|at: int, end: int| fingerprint_between(name, at, end)
    } else {
        ends_with_fingerprint(stem(name))
    }
}

/// A name of two parts with one dot between them is judged by the part before
/// the dot: it looks immutable exactly when that part ends with the marker and
/// at least one hexadecimal digit, whatever the extension holds.
pub proof fn law_fingerprint_before_the_extension(before: Seq<char>, extension: Seq<char>)
    requires
        forall|i: int| !dot_at(before, i),
        forall|i: int| !dot_at(extension, i),
    ensures
        looks_immutable(before + seq!['.'] + extension) <==> ends_with_fingerprint(before),
{
    let name = before + seq!['.'] + extension;
    let dot = before.len() as int;
    assert forall|other: int| dot_at(name, other) implies other == dot by {
        if other < dot {
            assert(dot_at(before, other));
        } else if other > dot {
            assert(dot_at(extension, other - dot - 1));
        }
    }
    assert(only_dot_at(name, dot));
    assert(name.take(dot) =~= before);
}

/// The characters of a piece of text, in order.
pub fn chars_of(text: &str) -> (chars: Vec<char>)
    ensures
        chars@ == text@,
{
    let mut chars: Vec<char> = Vec::new();
    let iter = text.chars();
    for c in it: iter
        invariant
            chars@ == it.seq().take(it.index() as int),
            it.seq() == text@,
    {
        chars.push(c);
    }
    chars
}

/// Whether the marker stands in `name` at `at`.
fn has_marker_at(name: &Vec<char>, at: usize) -> (found: bool)
    requires
        at + 4 <= name.len(),
    ensures
        found == marker_at(name@, at as int),
{
    let found = name[at] == '-' && name[at + 1] == 'd' && name[at + 2] == 'x' && name[at + 3]
        == 'h';
    proof {
        let part = name@.subrange(at as int, at + 4);
        assert(part[0] == name@[at as int]);
        assert(part[1] == name@[at + 1]);
        assert(part[2] == name@[at + 2]);
        assert(part[3] == name@[at + 3]);
        if found {
            assert(part =~= fingerprint_marker());
        }
    }
    found
}

/// The position of the last marker in `name`, if it has one.
fn last_marker(name: &Vec<char>) -> (found: Option<usize>)
    ensures
        found matches Some(at) ==> at + 4 <= name.len() && last_marker_at(name@, at as int),
        found is None ==> forall|at: int| !marker_at(name@, at),
{
    if name.len() < 4 {
        return None;
    }
    let mut at: usize = name.len() - 4;
    loop
        invariant
            at + 4 <= name.len(),
            forall|later: int| at < later ==> !marker_at(name@, later),
        decreases at,
    {
        if has_marker_at(name, at) {
            return Some(at);
        }
        if at == 0 {
            return None;
        }
        at -= 1;
    }
}

/// Whether `c` is a hexadecimal digit.
fn hex_digit(c: char) -> (hex: bool)
    ensures
        hex == is_hex_digit(c),
{
    ('0' <= c && c <= '9') || ('a' <= c && c <= 'f') || ('A' <= c && c <= 'F')
}

/// Whether a fingerprint stands after the last marker of `name`.
fn has_fingerprint_run(name: &Vec<char>) -> (found: bool)
    ensures
        found == exists|at: int, end: int| fingerprint_between(name@, at, end),
{
    match last_marker(name) {
        None => false,
        Some(at) => {
            let start: usize = at + 4;
            let mut end: usize = start;
            while end < name.len() && hex_digit(name[end])
                invariant
                    start <= end <= name.len(),
                    forall|i: int| start <= i < end ==> is_hex_digit(#[trigger] name@[i]),
                decreases name.len() - end,
            {
                end += 1;
            }
            let found = start < end && (end == name.len() || name[end] == '.');
            proof {
                if found {
                    assert(fingerprint_between(name@, at as int, end as int));
                } else {
                    assert forall|a: int, e: int| !fingerprint_between(name@, a, e) by {
                        if fingerprint_between(name@, a, e) {
                            assert(a == at);
                            if e < end {
                                assert(is_hex_digit(name@[e]));
                            } else if end < e {
                                assert(is_hex_digit(name@[end as int]));
                            }
                        }
                    }
                }
            }
            found
        },
    }
}

/// Whether the first `len` characters of `name` end with the marker and at
/// least one hexadecimal digit.
fn stem_ends_with_fingerprint(name: &Vec<char>, len: usize) -> (found: bool)
    requires
        len <= name.len(),
    ensures
        found == ends_with_fingerprint(name@.take(len as int)),
{
    let ghost text = name@.take(len as int);
    let mut start: usize = len;
    while start > 0 && hex_digit(name[start - 1])
        invariant
            start <= len <= name.len(),
            forall|i: int| start <= i < len ==> is_hex_digit(#[trigger] name@[i]),
        decreases start,
    {
        start -= 1;
    }
    let found = 4 <= start && start < len && has_marker_at(name, start - 4);
    proof {
        if found {
            assert(text.subrange(start - 4, start as int) =~= name@.subrange(
                start - 4,
                start as int,
            ));
            assert(marker_at(text, start - 4));
        } else {
            assert forall|at: int|
                !({
                    &&& #[trigger] marker_at(text, at)
                    &&& at + 4 < text.len()
                    &&& forall|i: int| at + 4 <= i < text.len() ==> is_hex_digit(#[trigger] text[i])
                }) by {
                if marker_at(text, at) && at + 4 < text.len() && (forall|i: int|
                    at + 4 <= i < text.len() ==> is_hex_digit(#[trigger] text[i])) {
                    assert(text.subrange(at, at + 4)[3] == 'h');
                    assert(text[at + 3] == 'h');
                    if start > at + 4 {
                        assert(is_hex_digit(text[start - 1]));
                    }
                    if start < at + 4 {
                        assert(is_hex_digit(name@[at + 3]));
                    }
                    assert(start == at + 4);
                    assert(text.subrange(at, at + 4) =~= name@.subrange(at, at + 4));
                }
            }
        }
    }
    found
}

/// Whether a file name carries a content fingerprint, so that the file may be
/// cached for ever.
pub fn file_name_looks_immutable(file_name: &str) -> (immutable: bool)
    ensures
        immutable == looks_immutable(file_name@),
{
    let name = chars_of(file_name);
    let mut dots: usize = 0;
    let mut first: usize = 0;
    let ghost mut second: int = 0;
    let mut i: usize = 0;
    while i < name.len()
        invariant
            0 <= i <= name.len(),
            dots <= 2,
            dots == 0 ==> forall|j: int| 0 <= j < i ==> !dot_at(name@, j),
            dots >= 1 ==> first < i && dot_at(name@, first as int),
            dots == 1 ==> forall|j: int| 0 <= j < i && dot_at(name@, j) ==> j == first,
            dots == 2 ==> second != first && dot_at(name@, second),
        decreases name.len() - i,
    {
        if name[i] == '.' {
            if dots == 0 {
                first = i;
                dots = 1;
            } else {
                proof {
                    second = i as int;
                }
                dots = 2;
            }
        }
        i += 1;
    }
    if dots == 2 {
        assert(has_several_dots(name@));
        has_fingerprint_run(&name)
    } else if dots == 1 {
        assert(only_dot_at(name@, first as int));
        stem_ends_with_fingerprint(&name, first)
    } else {
        assert(name@.take(name@.len() as int) =~= name@);
        stem_ends_with_fingerprint(&name, name.len())
    }
}

/// An entry of the public directory: its path below the root, one segment for
/// each directory on the way and one for the entry itself.
#[derive(Debug)]
pub struct AssetEntry {
    pub segments: Vec<String>,
    pub is_directory: bool,
}

/// An [`AssetEntry`] as plain values.
pub struct EntryModel {
    pub segments: Seq<Seq<char>>,
    pub is_directory: bool,
}

impl View for AssetEntry {
    type V = EntryModel;

    open spec fn view(&self) -> EntryModel {
        EntryModel { segments: segment_texts(self.segments@), is_directory: self.is_directory }
    }
}

/// How the directories below the root are served.
#[derive(Debug, Clone, Copy)]
pub enum DirectoryMode {
    /// Every file gets a route of its own when the routes are built; a file
    /// that is added later is not served.
    Enumerated,
    /// A directory directly below the root is handed to a directory service
    /// that reads the disk on each request.
    Live,
}

/// One route of the static assets.
#[derive(Debug)]
pub struct AssetRoute {
    /// The URL path under which the entry is served.
    pub url_path: String,
    /// The response may be cached for ever.
    pub is_immutable: bool,
    /// The route serves a whole directory, live.
    pub is_directory: bool,
    /// The position in the listing of the entry that is served.
    pub entry: usize,
}

/// An [`AssetRoute`] as plain values.
pub struct RouteModel {
    pub url_path: Seq<char>,
    pub is_immutable: bool,
    pub is_directory: bool,
    pub entry: int,
}

impl View for AssetRoute {
    type V = RouteModel;

    open spec fn view(&self) -> RouteModel {
        RouteModel {
            url_path: self.url_path@,
            is_immutable: self.is_immutable,
            is_directory: self.is_directory,
            entry: self.entry as int,
        }
    }
}

/// The texts of a run of path segments.
pub open spec fn segment_texts(segments: Seq<String>) -> Seq<Seq<char>> {
    segments.map_values(|segment: String| segment@)
}

/// The entries of a listing as plain values.
pub open spec fn entry_models(listing: Seq<AssetEntry>) -> Seq<EntryModel> {
    listing.map_values(|entry: AssetEntry| entry@)
}

/// The routes of a route list as plain values.
pub open spec fn route_models(routes: Seq<AssetRoute>) -> Seq<RouteModel> {
    routes.map_values(|route: AssetRoute| route@)
}

/// The segments with a slash between each two of them.
pub open spec fn joined(segments: Seq<Seq<char>>) -> Seq<char>
    decreases segments.len(),
{
    if segments.len() == 0 {
        Seq::empty()
    } else if segments.len() == 1 {
        segments[0]
    } else {
        joined(segments.drop_last()) + seq!['/'] + segments.last()
    }
}

/// The URL path of an entry: a slash, then its segments with a slash between
/// each two of them.
pub open spec fn url_path(segments: Seq<Seq<char>>) -> Seq<char> {
    seq!['/'] + joined(segments)
}

/// The entry is the `index.html` directly below the root, which is served by
/// the page renderer and gets no route here.
pub open spec fn is_root_index(segments: Seq<Seq<char>>) -> bool {
    segments.len() == 1 && segments[0] == "index.html"@
}

/// The route that the entry at position `at` of a listing gets, if it gets
/// one.
///
/// The root's own `index.html` gets none. A file gets a route under its URL
/// path, immutable if its name carries a fingerprint. A directory gets none
/// where the files are enumerated; where directories are served live, a
/// directory directly below the root gets one route for all that is in it, and
/// what lies deeper gets none of its own.
pub open spec fn route_for(entry: EntryModel, at: int, mode: DirectoryMode) -> Option<RouteModel> {
    if entry.segments.len() == 0 || is_root_index(entry.segments) {
        None
    } else if mode is Live && entry.segments.len() > 1 {
        None
    } else if entry.is_directory {
        if mode is Live {
            Some(
                RouteModel {
                    url_path: url_path(entry.segments),
                    is_immutable: false,
                    is_directory: true,
                    entry: at,
                },
            )
        } else {
            None
        }
    } else {
        Some(
            RouteModel {
                url_path: url_path(entry.segments),
                is_immutable: looks_immutable(entry.segments.last()),
                is_directory: false,
                entry: at,
            },
        )
    }
}

/// A walk of the public directory goes into this entry: a directory other than
/// an `index.html` directly below the root, where the files are enumerated.
pub open spec fn descends_into(entry: EntryModel, mode: DirectoryMode) -> bool {
    &&& entry.is_directory
    &&& mode is Enumerated
    &&& entry.segments.len() > 0
    &&& !is_root_index(entry.segments)
}

/// The routes of a listing: the route of each entry that gets one, in the
/// order of the listing.
pub open spec fn routes_for(listing: Seq<EntryModel>, mode: DirectoryMode) -> Seq<RouteModel>
    decreases listing.len(),
{
    if listing.len() == 0 {
        Seq::empty()
    } else {
        let earlier = routes_for(listing.drop_last(), mode);
        match route_for(listing.last(), listing.len() - 1, mode) {
            Some(route) => earlier.push(route),
            None => earlier,
        }
    }
}

/// The routes of the public directory; none where there is no such directory.
pub open spec fn static_routes(listing: Option<Seq<EntryModel>>, mode: DirectoryMode) -> Seq<
    RouteModel,
> {
    match listing {
        Some(entries) => routes_for(entries, mode),
        None => Seq::empty(),
    }
}

/// The URL path that mirrors a path below the root.
pub fn asset_url_path(segments: &Vec<String>) -> (path: String)
    ensures
        path@ == url_path(segment_texts(segments@)),
{
    proof {
        reveal_strlit("/");
    }
    let mut path = String::from_str("/");
    let mut i: usize = 0;
    while i < segments.len()
        invariant
            0 <= i <= segments.len(),
            "/"@ == seq!['/'],
            path@ == seq!['/'] + joined(segment_texts(segments@).take(i as int)),
        decreases segments.len() - i,
    {
        if i > 0 {
            path.append("/");
        }
        path.append(segments[i].as_str());
        proof {
            let texts = segment_texts(segments@);
            assert(texts.take(i + 1).drop_last() =~= texts.take(i as int));
            assert(texts.take(i + 1).last() == segments@[i as int]@);
            if i == 0 {
                assert(joined(texts.take(0)) =~= Seq::<char>::empty());
            }
            assert(path@ =~= seq!['/'] + joined(texts.take(i + 1)));
        }
        i += 1;
    }
    proof {
        let texts = segment_texts(segments@);
        assert(texts.take(i as int) =~= texts);
    }
    path
}

/// Whether the segments name the `index.html` directly below the root.
fn names_root_index(segments: &Vec<String>) -> (found: bool)
    requires
        segments.len() > 0,
    ensures
        found == is_root_index(segment_texts(segments@)),
{
    if segments.len() != 1 {
        return false;
    }
    let index = String::from_str("index.html");
    segments[0] == index
}

/// The route that one entry of a listing gets, if it gets one.
pub fn asset_route(entry: &AssetEntry, at: usize, mode: DirectoryMode) -> (route: Option<AssetRoute>)
    ensures
        route.is_some() == route_for(entry@, at as int, mode).is_some(),
        route matches Some(made) ==> Some(made@) == route_for(entry@, at as int, mode),
{
    let depth = entry.segments.len();
    if depth == 0 || names_root_index(&entry.segments) {
        return None;
    }
    let live = match mode {
        DirectoryMode::Live => true,
        DirectoryMode::Enumerated => false,
    };
    if live && depth > 1 {
        return None;
    }
    if entry.is_directory {
        if live {
            Some(
                AssetRoute {
                    url_path: asset_url_path(&entry.segments),
                    is_immutable: false,
                    is_directory: true,
                    entry: at,
                },
            )
        } else {
            None
        }
    } else {
        let file_name = entry.segments[depth - 1].as_str();
        assert(segment_texts(entry.segments@).last() == file_name@);
        Some(
            AssetRoute {
                url_path: asset_url_path(&entry.segments),
                is_immutable: file_name_looks_immutable(file_name),
                is_directory: false,
                entry: at,
            },
        )
    }
}

/// Whether a walk of the public directory goes on below this entry.
pub fn walk_descends(entry: &AssetEntry, mode: DirectoryMode) -> (descends: bool)
    ensures
        descends == descends_into(entry@, mode),
{
    if !entry.is_directory || entry.segments.len() == 0 {
        return false;
    }
    match mode {
        DirectoryMode::Enumerated => !names_root_index(&entry.segments),
        DirectoryMode::Live => false,
    }
}

/// The routes for the static assets, from a listing of the public directory.
/// Without a public directory there are none: a server without static assets
/// is a valid one.
pub fn static_asset_routes(listing: Option<&Vec<AssetEntry>>, mode: DirectoryMode) -> (routes: Vec<
    AssetRoute,
>)
    ensures
        route_models(routes@) == static_routes(
            match listing {
                Some(entries) => Some(entry_models(entries@)),
                None => None,
            },
            mode,
        ),
{
    let mut routes: Vec<AssetRoute> = Vec::new();
    match listing {
        None => {
            assert(route_models(routes@) =~= Seq::<RouteModel>::empty());
        },
        Some(entries) => {
            let mut i: usize = 0;
            assert(route_models(routes@) =~= routes_for(entry_models(entries@).take(0), mode));
            while i < entries.len()
                invariant
                    0 <= i <= entries.len(),
                    route_models(routes@) == routes_for(
                        entry_models(entries@).take(i as int),
                        mode,
                    ),
                decreases entries.len() - i,
            {
                let ghost before = routes@;
                let made = asset_route(&entries[i], i, mode);
                proof {
                    let models = entry_models(entries@);
                    assert(models.take(i + 1).drop_last() =~= models.take(i as int));
                    assert(models.take(i + 1).last() == entries@[i as int]@);
                }
                match made {
                    Some(route) => {
                        routes.push(route);
                        assert(route_models(routes@) =~= route_models(before).push(route@));
                    },
                    None => {},
                }
                i += 1;
            }
            assert(entry_models(entries@).take(i as int) =~= entry_models(entries@));
        },
    }
    routes
}

/// Marks a response as cacheable for ever: `Cache-Control` becomes
/// `public, max-age=31536000, immutable`; the other headers stay.
/// Succeeds wherever the response has fewer than `HEADER_ROOM` header names.
pub fn cache_response_forever(headers: HeaderMap) -> (outcome: Result<HeaderMap, HeaderLimitReached>)
    ensures
        outcome matches Ok(out) ==> header_entries(out) == with_replaced(
            header_entries(headers),
            "cache-control"@,
            ascii_bytes("public, max-age=31536000, immutable"@),
        ),
        crate::headers::name_count(header_entries(headers)) < crate::headers::HEADER_ROOM
            ==> outcome is Ok,
{
    proof {
        reveal_strlit("cache-control");
        reveal_strlit("public, max-age=31536000, immutable");
    }
    let cache_control = static_name("cache-control");
    let forever = text_value("public, max-age=31536000, immutable");
    let mut out = headers;
    let attempt = try_insert(&mut out, &cache_control, &forever);
    crate::headers::after_write(out, attempt)
}

/// Where the public directory is looked for: at the path that the environment
/// names, if it names one; else beside the running executable, if that place is
/// known.
pub fn public_path<P>(from_environment: Option<P>, beside_executable: Option<P>) -> (path: Option<P>)
    ensures
        path == if from_environment is Some {
            from_environment
        } else {
            beside_executable
        },
{
    match from_environment {
        Some(named) => Some(named),
        None => beside_executable,
    }
}

} // verus!
