//! Header maps of the `http` crate, and the two ways this gateway combines them.
//!
//! A [`HeaderMap`] is a multimap: every header name carries a list of values in
//! the order in which they were added. The contracts of this crate speak of that
//! model. What is said here of the `http` crate itself is assumed, not proved;
//! each such item says what it assumes. The rest is proved from it.

use http::header::MaxSizeReached;
use http::header::ToStrError;
use http::HeaderMap;
use http::HeaderName;
use http::HeaderValue;
use crate::text::ascii_bytes;
use vstd::prelude::*;
use vstd::string::StringSliceAdditionalSpecFns;

verus! {

#[verifier::external_type_specification]
#[verifier::external_body]
#[verifier::reject_recursive_types(T)]
pub struct ExHeaderMap<T>(http::HeaderMap<T>);

#[verifier::external_type_specification]
#[verifier::external_body]
pub struct ExHeaderName(http::HeaderName);

#[verifier::external_type_specification]
#[verifier::external_body]
pub struct ExHeaderValue(http::HeaderValue);

#[verifier::external_type_specification]
#[verifier::external_body]
pub struct ExMaxSizeReached(http::header::MaxSizeReached);

#[verifier::external_type_specification]
#[verifier::external_body]
pub struct ExToStrError(http::header::ToStrError);

/// The mathematical model of a header multimap: each name that is present maps
/// to its values, oldest first.
pub type HeaderModel = Map<Seq<char>, Seq<Seq<u8>>>;

/// One header as plain values: the name's text and the value's bytes.
pub type HeaderPair = (Seq<char>, Seq<u8>);

/// The text of a header name, as `HeaderName::as_str` gives it (lower case).
pub uninterp spec fn header_name_text(name: HeaderName) -> Seq<char>;

/// The bytes of a header value, as `HeaderValue::as_bytes` gives them.
pub uninterp spec fn header_value_bytes(value: HeaderValue) -> Seq<u8>;

/// What a header map holds: the names that `contains_key` finds, each with the
/// values that `get_all` yields for it, in that order.
pub uninterp spec fn header_entries(map: HeaderMap) -> HeaderModel;

/// The number of names below which a header map takes every entry. The map
/// refuses an entry only where it holds 32768 names, or where its table of
/// slots, which is never larger than 32768, would have to double beyond that;
/// it doubles the table only when the names fill three quarters of it or,
/// after many collisions, a fifth of it. With fewer than 6554 names neither
/// happens.
pub const HEADER_ROOM: usize = 6554;

/// The number of names in a multimap.
pub open spec fn name_count(model: HeaderModel) -> nat {
    model.dom().len()
}

/// The multimap that holds nothing.
pub open spec fn no_headers() -> HeaderModel {
    Map::empty()
}

/// The values under `name`, or none where the name is absent.
pub open spec fn values_of(model: HeaderModel, name: Seq<char>) -> Seq<Seq<u8>> {
    if model.dom().contains(name) {
        model[name]
    } else {
        Seq::empty()
    }
}

/// The oldest value under `name`, if the name is present.
pub open spec fn first_of(model: HeaderModel, name: Seq<char>) -> Option<Seq<u8>> {
    if model.dom().contains(name) {
        Some(values_of(model, name)[0])
    } else {
        None
    }
}

/// The multimap after one more value was added under `name`.
pub open spec fn with_appended(model: HeaderModel, name: Seq<char>, value: Seq<u8>) -> HeaderModel {
    model.insert(name, values_of(model, name).push(value))
}

/// The multimap after `value` replaced whatever stood under `name`.
pub open spec fn with_replaced(model: HeaderModel, name: Seq<char>, value: Seq<u8>) -> HeaderModel {
    model.insert(name, seq![value])
}

/// How a header is written into a map that may hold its name already.
#[derive(Debug, Clone, Copy)]
pub enum Writing {
    /// After the values that stand under the name.
    Append,
    /// In place of the values that stand under the name.
    Replace,
}

/// The multimap after one header was written into it.
pub open spec fn with_written(model: HeaderModel, pair: HeaderPair, how: Writing) -> HeaderModel {
    match how {
        Writing::Append => with_appended(model, pair.0, pair.1),
        Writing::Replace => with_replaced(model, pair.0, pair.1),
    }
}

/// `model` after each of `pairs` was written into it in turn.
pub open spec fn written_all(model: HeaderModel, pairs: Seq<HeaderPair>, how: Writing) -> HeaderModel
    decreases pairs.len(),
{
    if pairs.len() == 0 {
        model
    } else {
        with_written(written_all(model, pairs.drop_last(), how), pairs.last(), how)
    }
}

/// The multimap that a run of headers amounts to: each name with its values in
/// the order of the run.
pub open spec fn grouped(pairs: Seq<HeaderPair>) -> HeaderModel {
    written_all(no_headers(), pairs, Writing::Append)
}

/// The additive merge: every name of either side, with the values of `base`
/// first and those of `extra` after them.
pub open spec fn merged(base: HeaderModel, extra: HeaderModel) -> HeaderModel {
    Map::new(
        |name: Seq<char>| base.dom().contains(name) || extra.dom().contains(name),
        |name: Seq<char>| values_of(base, name) + values_of(extra, name),
    )
}

/// The overlay: a name of `top` keeps only the newest value that `top` has for
/// it; every other name keeps what `base` has.
pub open spec fn overlaid(base: HeaderModel, top: HeaderModel) -> HeaderModel {
    Map::new(
        |name: Seq<char>| base.dom().contains(name) || top.dom().contains(name),
        |name: Seq<char>|
            if top.dom().contains(name) {
                seq![top[name].last()]
            } else {
                base[name]
            },
    )
}

/// What comes of writing every header of `extra` into `base`: the additive
/// merge where they are appended, the overlay where they replace.
pub open spec fn combined(base: HeaderModel, extra: HeaderModel, how: Writing) -> HeaderModel {
    match how {
        Writing::Append => merged(base, extra),
        Writing::Replace => overlaid(base, extra),
    }
}

/// A borrowed header as plain values.
pub open spec fn plain_pair<'a>(pair: (&'a HeaderName, &'a HeaderValue)) -> HeaderPair {
    (header_name_text(*pair.0), header_value_bytes(*pair.1))
}

/// A run of borrowed headers as plain values.
pub open spec fn plain_pairs<'a>(pairs: Seq<(&'a HeaderName, &'a HeaderValue)>) -> Seq<HeaderPair> {
    pairs.map_values(|pair: (&'a HeaderName, &'a HeaderValue)| plain_pair(pair))
}

/// A byte that `http` counts as visible ASCII: printable, a space or a tab.
pub open spec fn is_visible_ascii(byte: u8) -> bool {
    (32 <= byte && byte < 127) || byte == 9
}

/// Every byte is visible ASCII.
pub open spec fn is_visible_text(bytes: Seq<u8>) -> bool {
    forall|i: int| 0 <= i < bytes.len() ==> is_visible_ascii(#[trigger] bytes[i])
}

/// A header name made of lower-case letters and hyphens only, of moderate
/// length: a subset of what `http` accepts as a name.
pub open spec fn is_plain_name(text: Seq<char>) -> bool {
    &&& 0 < text.len() <= 64
    &&& forall|i: int|
        0 <= i < text.len() ==> ('a' <= #[trigger] text[i] && text[i] <= 'z') || text[i] == '-'
}

/// The header map was at the size limit of the `http` crate and took no
/// further entry.
#[derive(Debug, Clone, Copy, PartialEq, Eq)]
pub struct HeaderLimitReached;

/// `HeaderValue::to_str`: assumed to succeed exactly when every byte of the
/// value is visible ASCII, and then to hand out those same bytes as text.
pub assume_specification[ HeaderValue::to_str ](value: &HeaderValue) -> (text: Result<
    &str,
    ToStrError,
>)
    ensures
        text is Ok <==> is_visible_text(header_value_bytes(*value)),
        text matches Ok(s) ==> s.spec_bytes() == header_value_bytes(*value),
;

/// `HeaderValue::clone`: assumed to keep the bytes.
pub assume_specification[ <HeaderValue as Clone>::clone ](value: &HeaderValue) -> (copy:
    HeaderValue)
    ensures
        header_value_bytes(copy) == header_value_bytes(*value),
;

/// `HeaderMap::new`: assumed to return a map that holds nothing.
pub assume_specification[ HeaderMap::<HeaderValue>::new ]() -> (fresh: HeaderMap)
    ensures
        header_entries(fresh) == no_headers(),
;

/// `HeaderName::from_static`: assumed to accept a name of lower-case letters
/// and hyphens and to return the header name with that text.
#[verifier::external_body]
pub(crate) fn static_name(text: &'static str) -> (name: HeaderName)
    requires
        is_plain_name(text@),
    ensures
        header_name_text(name) == text@,
{
    HeaderName::from_static(text)
}

/// `HeaderValue::from_static`: assumed to accept text whose bytes are all
/// visible ASCII and to return the value with those bytes.
#[verifier::external_body]
pub(crate) fn static_value(text: &'static str) -> (value: HeaderValue)
    requires
        is_visible_text(text.spec_bytes()),
    ensures
        header_value_bytes(value) == text.spec_bytes(),
{
    HeaderValue::from_static(text)
}

/// `HeaderMap::get`: assumed to find a value exactly when the name is present,
/// and then to return the oldest value under it.
#[verifier::external_body]
pub(crate) fn first_value<'a>(map: &'a HeaderMap, name: &HeaderName) -> (found: Option<
    &'a HeaderValue,
>)
    ensures
        found is Some <==> header_entries(*map).dom().contains(header_name_text(*name)),
        found matches Some(value) ==> values_of(header_entries(*map), header_name_text(*name)).len() > 0
            && header_value_bytes(*value) == values_of(
            header_entries(*map),
            header_name_text(*name),
        )[0],
{
    map.get(name)
}

/// `HeaderMap::iter`: assumed to yield every value of the map once, the values
/// of one name in their order in the map. Nothing is assumed of the order
/// between different names.
#[verifier::external_body]
pub(crate) fn header_pairs<'a>(map: &'a HeaderMap) -> (pairs: Vec<(&'a HeaderName, &'a HeaderValue)>)
    ensures
        grouped(plain_pairs(pairs@)) == header_entries(*map),
{
    map.iter().collect()
}

/// `HeaderMap::try_append`: assumed, where it succeeds, to add the value after
/// those that the name already has and to report whether the name was present;
/// where it fails, to leave the map as it was. A map is assumed to hold
/// finitely many names, and one with fewer than [`HEADER_ROOM`] names to take
/// the entry.
#[verifier::external_body]
pub(crate) fn try_append(map: &mut HeaderMap, name: &HeaderName, value: &HeaderValue) -> (outcome:
    Result<bool, MaxSizeReached>)
    ensures
        outcome is Ok ==> header_entries(*final(map)) == with_appended(
            header_entries(*old(map)),
            header_name_text(*name),
            header_value_bytes(*value),
        ),
        outcome matches Ok(present) ==> present == header_entries(*old(map)).dom().contains(
            header_name_text(*name),
        ),
        outcome is Err ==> header_entries(*final(map)) == header_entries(*old(map)),
        header_entries(*old(map)).dom().finite(),
        name_count(header_entries(*old(map))) < HEADER_ROOM ==> outcome is Ok,
{
    map.try_append(name, value.clone())
}

/// `HeaderMap::try_insert`: assumed, where it succeeds, to leave the value as
/// the only one under the name and to hand back the oldest value that stood
/// there; where it fails, to leave the map as it was. A map is assumed to hold
/// finitely many names, and one with fewer than [`HEADER_ROOM`] names to take
/// the entry.
#[verifier::external_body]
pub(crate) fn try_insert(map: &mut HeaderMap, name: &HeaderName, value: &HeaderValue) -> (outcome:
    Result<Option<HeaderValue>, MaxSizeReached>)
    ensures
        outcome is Ok ==> header_entries(*final(map)) == with_replaced(
            header_entries(*old(map)),
            header_name_text(*name),
            header_value_bytes(*value),
        ),
        outcome matches Ok(Some(previous)) ==> first_of(
            header_entries(*old(map)),
            header_name_text(*name),
        ) == Some(header_value_bytes(previous)),
        outcome matches Ok(None) ==> !header_entries(*old(map)).dom().contains(
            header_name_text(*name),
        ),
        outcome is Err ==> header_entries(*final(map)) == header_entries(*old(map)),
        header_entries(*old(map)).dom().finite(),
        name_count(header_entries(*old(map))) < HEADER_ROOM ==> outcome is Ok,
{
    map.try_insert(name, value.clone())
}

/// Printable ASCII text: every character from the space to the tilde.
pub open spec fn is_printable(text: Seq<char>) -> bool {
    forall|i: int| 0 <= i < text.len() ==> ' ' <= #[trigger] text[i] && text[i] <= '~'
}

/// The header value that holds a piece of printable text.
pub(crate) fn text_value(text: &'static str) -> (value: HeaderValue)
    requires
        is_printable(text@),
    ensures
        header_value_bytes(value) == ascii_bytes(text@),
{
    proof {
        assert(text.is_ascii());
        vstd::string::is_ascii_spec_bytes(text);
        assert(text.spec_bytes() =~= ascii_bytes(text@));
        assert forall|i: int| 0 <= i < text.spec_bytes().len() implies is_visible_ascii(
            #[trigger] text.spec_bytes()[i],
        ) by {
            assert(' ' <= text@[i] && text@[i] <= '~');
        }
    }
    static_value(text)
}

/// The additive merge replaces nothing: under every name stand the values of
/// the base, and after them, in their own order, the values that were added.
pub proof fn law_merge_is_additive(base: HeaderModel, extra: HeaderModel, name: Seq<char>)
    ensures
        values_of(merged(base, extra), name) == values_of(base, name) + values_of(extra, name),
        merged(base, extra).dom().contains(name) <==> base.dom().contains(name)
            || extra.dom().contains(name),
{
    assert(values_of(merged(base, extra), name) =~= values_of(base, name) + values_of(
        extra,
        name,
    ));
}

/// In an overlay a name of the top layer keeps exactly one value, the newest
/// of the top layer; a name that the top layer lacks keeps what the base has.
pub proof fn law_overlay_prefers_top(base: HeaderModel, top: HeaderModel, name: Seq<char>)
    ensures
        top.dom().contains(name) ==> values_of(overlaid(base, top), name) == seq![
            top[name].last(),
        ],
        !top.dom().contains(name) ==> values_of(overlaid(base, top), name) == values_of(
            base,
            name,
        ),
{
}

/// Writing a run of headers into a multimap combines it with what the run
/// amounts to: the additive merge where they are appended, the overlay where
/// they replace.
pub proof fn lemma_written_all_combines(model: HeaderModel, pairs: Seq<HeaderPair>, how: Writing)
    ensures
        written_all(model, pairs, how) == combined(model, grouped(pairs), how),
    decreases pairs.len(),
{
    if pairs.len() == 0 {
        assert(combined(model, grouped(pairs), how) =~~= model);
    } else {
        let rest = pairs.drop_last();
        let last = pairs.last();
        lemma_written_all_combines(model, rest, how);
        assert(with_written(combined(model, grouped(rest), how), last, how) =~~= combined(
            model,
            with_appended(grouped(rest), last.0, last.1),
            how,
        ));
    }
}

/// What a run of headers amounts to has finitely many names.
pub proof fn lemma_grouped_finite(pairs: Seq<HeaderPair>)
    ensures
        grouped(pairs).dom().finite(),
    decreases pairs.len(),
{
    if pairs.len() > 0 {
        lemma_grouped_finite(pairs.drop_last());
    }
}

/// The names of the first `end` headers of a run are among the names of the
/// whole run.
pub proof fn lemma_grouped_prefix(pairs: Seq<HeaderPair>, end: int)
    requires
        0 <= end <= pairs.len(),
    ensures
        grouped(pairs.take(end)).dom().subset_of(grouped(pairs).dom()),
    decreases pairs.len() - end,
{
    if end == pairs.len() {
        assert(pairs.take(end) =~= pairs);
    } else {
        lemma_grouped_prefix(pairs, end + 1);
        assert(pairs.take(end + 1).drop_last() =~= pairs.take(end));
    }
}

/// Where the names of `current` are those of `base` and of the first `end`
/// headers of a run, there are no more of them than `base` and the whole run
/// have together.
pub proof fn lemma_names_bound(
    base: HeaderModel,
    pairs: Seq<HeaderPair>,
    end: int,
    current: HeaderModel,
)
    requires
        0 <= end <= pairs.len(),
        current.dom() == base.dom().union(grouped(pairs.take(end)).dom()),
        current.dom().finite() || base.dom().finite(),
    ensures
        base.dom().finite(),
        current.dom().finite(),
        name_count(current) <= name_count(base) + name_count(grouped(pairs)),
{
    let some = grouped(pairs.take(end)).dom();
    let all = grouped(pairs).dom();
    lemma_grouped_finite(pairs.take(end));
    lemma_grouped_finite(pairs);
    lemma_grouped_prefix(pairs, end);
    if current.dom().finite() {
        vstd::set_lib::lemma_len_subset(base.dom(), current.dom());
    }
    vstd::set_lib::lemma_len_subset(some, all);
    vstd::set_lib::lemma_len_union(base.dom(), some);
}

/// What comes of an attempt to write into a header map: the map as it stands
/// where the map took the entry, and the report of the limit where the map
/// refused it.
pub fn after_write<T>(map: HeaderMap, attempt: Result<T, MaxSizeReached>) -> (outcome: Result<
    HeaderMap,
    HeaderLimitReached,
>)
    ensures
        attempt is Ok ==> outcome == Ok::<HeaderMap, HeaderLimitReached>(map),
        attempt is Err ==> outcome == Err::<HeaderMap, HeaderLimitReached>(HeaderLimitReached),
{
    match attempt {
        Ok(_) => Ok(map),
        Err(_) => Err(HeaderLimitReached),
    }
}

/// Writes one header into a map. Succeeds wherever the map has fewer than
/// [`HEADER_ROOM`] names.
pub(crate) fn write_header(
    map: HeaderMap,
    name: &HeaderName,
    value: &HeaderValue,
    how: Writing,
) -> (outcome: Result<HeaderMap, HeaderLimitReached>)
    ensures
        outcome matches Ok(out) ==> header_entries(out) == with_written(
            header_entries(map),
            (header_name_text(*name), header_value_bytes(*value)),
            how,
        ),
        header_entries(map).dom().finite(),
        name_count(header_entries(map)) < HEADER_ROOM ==> outcome is Ok,
{
    let mut written = map;
    match how {
        Writing::Append => {
            let attempt = try_append(&mut written, name, value);
            after_write(written, attempt)
        },
        Writing::Replace => {
            let attempt = try_insert(&mut written, name, value);
            after_write(written, attempt)
        },
    }
}

/// Writes every header of `extra` into `target`, each in the way that `how`
/// names.
fn write_headers(target: HeaderMap, extra: &HeaderMap, how: Writing) -> (outcome: Result<
    HeaderMap,
    HeaderLimitReached,
>)
    ensures
        outcome matches Ok(out) ==> header_entries(out) == combined(
            header_entries(target),
            header_entries(*extra),
            how,
        ),
        outcome matches Ok(out) ==> name_count(header_entries(out)) <= name_count(
            header_entries(target),
        ) + name_count(header_entries(*extra)),
        header_entries(*extra) == no_headers() ==> outcome is Ok,
        name_count(header_entries(target)) + name_count(header_entries(*extra)) < HEADER_ROOM
            ==> outcome is Ok,
{
    let pairs = header_pairs(extra);
    let mut out = target;
    let mut i: usize = 0;
    while i < pairs.len()
        invariant
            0 <= i <= pairs.len(),
            grouped(plain_pairs(pairs@)) == header_entries(*extra),
            header_entries(out) == written_all(
                header_entries(target),
                plain_pairs(pairs@).take(i as int),
                how,
            ),
            i > 0 ==> header_entries(target).dom().finite(),
        decreases pairs.len() - i,
    {
        let pair = &pairs[i];
        let ghost before = header_entries(out);
        let written = write_header(out, pair.0, pair.1, how);
        proof {
            let all = plain_pairs(pairs@);
            lemma_written_all_combines(header_entries(target), all.take(i as int), how);
            assert(before.dom() =~= header_entries(target).dom().union(
                grouped(all.take(i as int)).dom(),
            ));
            lemma_names_bound(header_entries(target), all, i as int, before);
            assert(grouped(all).dom().contains(all.last().0));
            assert(all.take(i + 1).drop_last() =~= all.take(i as int));
            assert(all.take(i + 1).last() == plain_pair(pairs@[i as int]));
        }
        out = match written {
            Ok(next) => next,
            Err(limit) => {
                return Err(limit);
            },
        };
        i += 1;
    }
    proof {
        let all = plain_pairs(pairs@);
        assert(all.take(i as int) =~= all);
        lemma_written_all_combines(header_entries(target), all, how);
        if i == 0 {
            assert(combined(header_entries(target), grouped(all), how) =~~= header_entries(
                target,
            ));
        } else {
            assert(header_entries(out).dom() =~= header_entries(target).dom().union(
                grouped(all.take(i as int)).dom(),
            ));
            lemma_names_bound(header_entries(target), all, i as int, header_entries(out));
        }
    }
    Ok(out)
}

/// Adds every header of `extra` to `target`, after the values that `target`
/// already has under the same name. Nothing of `target` is replaced.
///
/// Succeeds wherever the two maps together have fewer than [`HEADER_ROOM`]
/// names, and wherever there is nothing to add.
pub fn append_headers(target: HeaderMap, extra: &HeaderMap) -> (outcome: Result<
    HeaderMap,
    HeaderLimitReached,
>)
    ensures
        outcome matches Ok(out) ==> header_entries(out) == merged(
            header_entries(target),
            header_entries(*extra),
        ),
        outcome matches Ok(out) ==> name_count(header_entries(out)) <= name_count(
            header_entries(target),
        ) + name_count(header_entries(*extra)),
        header_entries(*extra) == no_headers() ==> outcome is Ok,
        name_count(header_entries(target)) + name_count(header_entries(*extra)) < HEADER_ROOM
            ==> outcome is Ok,
{
    write_headers(target, extra, Writing::Append)
}

/// Inserts every header of `top` into `target`. A name of `top` loses what
/// `target` had under it, and of several values that `top` has for one name the
/// newest stays.
///
/// Succeeds wherever the two maps together have fewer than [`HEADER_ROOM`]
/// names, and wherever there is nothing to insert.
pub fn overlay_headers(target: HeaderMap, top: &HeaderMap) -> (outcome: Result<
    HeaderMap,
    HeaderLimitReached,
>)
    ensures
        outcome matches Ok(out) ==> header_entries(out) == overlaid(
            header_entries(target),
            header_entries(*top),
        ),
        outcome matches Ok(out) ==> name_count(header_entries(out)) <= name_count(
            header_entries(target),
        ) + name_count(header_entries(*top)),
        header_entries(*top) == no_headers() ==> outcome is Ok,
        name_count(header_entries(target)) + name_count(header_entries(*top)) < HEADER_ROOM
            ==> outcome is Ok,
{
    write_headers(target, top, Writing::Replace)
}

} // verus!
