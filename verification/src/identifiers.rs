//! Which events hold an identifier that is too long to be read.
//!
//! `ruma` keeps the position of the delimiter of an identifier in one byte. Of a
//! position over 255 only the lowest byte is kept. `ruma` panics on an `mxc://` URI
//! for which that byte is zero, and on a key ID in which no character starts right
//! behind the position that the byte gives. It reads such identifiers in a few
//! places of a few types of events, and nowhere else.
use vstd::prelude::*;
use crate::text::{
    find_after_chars, find_after_space, find_fields, find_members, find_values, has_text,
    has_value, join, read_unit, QUOTE,
};

verus! {

/// The delimiter of key IDs.
pub const COLON: u8 = 0x3a;

/// The delimiter of `mxc://` URIs.
pub const SLASH: u8 = 0x2f;

/// Whether `ruma::ServerName` can be made from the name `name`, in UTF-8.
pub uninterp spec fn server_name_parses(name: Seq<u8>) -> bool;

/// Whether `code` is that of a letter or a digit.
pub open spec fn is_alphanumeric(code: u32) -> bool {
    0x30 <= code <= 0x39 || 0x41 <= code <= 0x5a || 0x61 <= code <= 0x7a
}

/// Whether `name` is a host name: letters, digits, hyphens and dots.
pub open spec fn is_host_name(name: Seq<u8>) -> bool {
    &&& name.len() > 0
    &&& forall|k: int|
        0 <= k < name.len() ==> is_alphanumeric(#[trigger] name[k] as u32) || name[k] == 0x2d
            || name[k] == 0x2e
}

/// Whether `name` is the name of a server. Host names are, and some names with an
/// IP address or a port.
pub open spec fn is_server_name(name: Seq<u8>) -> bool {
    is_host_name(name) || server_name_parses(name)
}

/// Makes a `ruma::ServerName` from the name `name`, with `TryFrom<&str>`.
///
/// Claimed of it: whether it succeeds depends on the name alone, and it does for
/// host names. Which names with an IP address or a port it takes is left open.
#[verifier::external_body]
fn parse_server_name(name: &[u8]) -> (res: bool)
    requires
        forall|k: int| 0 <= k < name@.len() ==> #[trigger] name@[k] < 0x80,
    ensures
        res == server_name_parses(name@),
        is_host_name(name@) ==> res,
{
    let name = String::from_utf8_lossy(name);
    <&ruma::ServerName>::try_from(name.as_ref()).is_ok()
}

/// The name of the server that the string has at `i`, up to the slash, and where
/// the text goes on after the slash. A name that is not in ASCII is none.
pub open spec fn server_name(text: Seq<u8>, i: int) -> Option<(Seq<u8>, int)>
    decreases text.len() - i,
{
    let unit = crate::text::unit_at(text, i);
    if i >= text.len() || text[i] == QUOTE {
        None
    } else if unit.code == SLASH {
        Some((Seq::empty(), i + unit.width))
    } else if unit.code < 0x80 {
        match server_name(text, i + unit.width) {
            Some((name, rest)) => Some((seq![unit.code as u8] + name, rest)),
            None => None,
        }
    } else {
        None
    }
}

/// Whether the rest of the string, from `i` on, is the ID of media.
pub open spec fn is_media_id(text: Seq<u8>, i: int) -> bool
    decreases text.len() - i,
{
    let unit = crate::text::unit_at(text, i);
    if i >= text.len() || text[i] == QUOTE {
        true
    } else {
        (is_alphanumeric(unit.code) || unit.code == 0x2d) && is_media_id(text, i + unit.width)
    }
}

/// Whether the value at `at` is an `mxc://` URI with its delimiter at a multiple of
/// 256 bytes.
pub open spec fn is_oversized_uri(text: Seq<u8>, at: int) -> bool {
    &&& 0 <= at < text.len()
    &&& text[at] == QUOTE
    &&& match crate::text::after_chars(text, at + 1, "mxc://"@, 0) {
        Some(i) => match server_name(text, i) {
            Some((name, media_id)) => {
                &&& (6 + name.len()) % 256 == 0
                &&& is_media_id(text, media_id)
                &&& is_server_name(name)
            },
            None => false,
        },
        None => false,
    }
}

/// Where the string whose text goes on at `i`, with `offset` bytes of it before
/// that, has its next colon, in bytes of UTF-8 from its start.
pub open spec fn colon_offset(text: Seq<u8>, i: int, offset: int) -> Option<int>
    decreases text.len() - i,
{
    let unit = crate::text::unit_at(text, i);
    if i >= text.len() || text[i] == QUOTE {
        None
    } else if unit.code == COLON {
        Some(offset)
    } else {
        colon_offset(text, i + unit.width, offset + unit.size)
    }
}

/// Whether a character of the string whose text goes on at `i`, with `offset`
/// bytes of it before that, starts `target` bytes of UTF-8 from its start.
pub open spec fn starts_at(text: Seq<u8>, i: int, offset: int, target: int) -> bool
    decreases text.len() - i,
{
    let unit = crate::text::unit_at(text, i);
    if i >= text.len() || text[i] == QUOTE {
        offset == target
    } else if offset >= target {
        offset == target && unit.starts
    } else {
        starts_at(text, i + unit.width, offset + unit.size, target)
    }
}

/// Whether the string at `at` has its first colon at 256 bytes or more, and no
/// character starts right behind the position that the lowest byte of that gives.
pub open spec fn is_oversized_key_id(text: Seq<u8>, at: int) -> bool {
    &&& 0 <= at < text.len()
    &&& text[at] == QUOTE
    &&& match colon_offset(text, at + 1, 0) {
        Some(colon) => {
            &&& colon >= 256
            &&& colon % 256 != 0
            &&& !starts_at(text, at + 1, 0, colon % 256 + 1)
        },
        None => false,
    }
}

/// Where the values are of the member `name` of the event `text`.
pub open spec fn event_member(text: Seq<u8>, name: Seq<char>) -> Seq<int> {
    crate::text::field(text, crate::text::skip_space(text, 0), name, None)
}

/// Whether the event `text` is of the type `wanted`.
pub open spec fn is_of_type(text: Seq<u8>, wanted: Seq<char>) -> bool {
    crate::text::some_text(text, event_member(text, "type"@), wanted)
}

/// Whether the event `text` is a state event.
pub open spec fn is_state_event(text: Seq<u8>) -> bool {
    crate::text::some_value(text, event_member(text, "state_key"@))
}

/// Whether the event `text` has been redacted.
pub open spec fn is_redacted(text: Seq<u8>) -> bool {
    crate::text::some_value(
        text,
        crate::text::fields(text, event_member(text, "unsigned"@), "redacted_because"@, Some(0)),
    )
}

/// Where the URIs are of the encrypted files at `files`.
pub open spec fn file_uris(text: Seq<u8>, files: Seq<int>) -> Seq<int> {
    crate::text::fields(text, files, "url"@, Some(0))
}

/// Where the URIs are of the thumbnails that the metadata at `infos` tell of. In
/// metadata that are an array the thumbnail is the element `url` or `file`.
pub open spec fn thumbnail_uris(
    text: Seq<u8>,
    infos: Seq<int>,
    url: usize,
    file: usize,
) -> Seq<int> {
    crate::text::fields(text, infos, "thumbnail_url"@, Some(url)) + file_uris(
        text,
        crate::text::fields(text, infos, "thumbnail_file"@, Some(file)),
    )
}

/// Where the URIs are of the media that the messages with the contents `contents`
/// come with.
pub open spec fn media_uris(text: Seq<u8>, contents: Seq<int>) -> Seq<int> {
    crate::text::fields(text, contents, "url"@, None) + file_uris(
        text,
        crate::text::fields(text, contents, "file"@, None),
    )
}

/// Where the URIs are in messages with the contents `contents`, by their
/// `msgtype`.
pub open spec fn message_uris(text: Seq<u8>, contents: Seq<int>) -> Seq<int> {
    let kinds = crate::text::fields(text, contents, "msgtype"@, None);
    let infos = crate::text::fields(text, contents, "info"@, None);
    if crate::text::some_text(text, kinds, "m.audio"@) {
        media_uris(text, contents)
    } else if crate::text::some_text(text, kinds, "m.file"@) {
        media_uris(text, contents) + thumbnail_uris(text, infos, 3, 4)
    } else if crate::text::some_text(text, kinds, "m.image"@) {
        media_uris(text, contents) + thumbnail_uris(text, infos, 5, 6)
    } else if crate::text::some_text(text, kinds, "m.video"@) {
        media_uris(text, contents) + thumbnail_uris(text, infos, 6, 7)
    } else if crate::text::some_text(text, kinds, "m.location"@) {
        thumbnail_uris(text, infos, 0, 1)
    } else {
        Seq::empty()
    }
}

/// Where the URIs are in stickers with the contents `contents`.
pub open spec fn sticker_uris(text: Seq<u8>, contents: Seq<int>) -> Seq<int> {
    crate::text::fields(text, contents, "url"@, Some(2)) + thumbnail_uris(
        text,
        crate::text::fields(text, contents, "info"@, Some(1)),
        5,
        6,
    )
}

/// Where the URIs are in avatars of rooms with the contents `contents`.
pub open spec fn avatar_uris(text: Seq<u8>, contents: Seq<int>) -> Seq<int> {
    crate::text::fields(text, contents, "url"@, Some(1)) + crate::text::fields(
        text,
        crate::text::fields(text, contents, "info"@, Some(0)),
        "thumbnail_url"@,
        Some(5),
    )
}

/// Where the contents of the state event `text` are, the one before it among them.
pub open spec fn state_contents(text: Seq<u8>) -> Seq<int> {
    event_member(text, "content"@) + event_member(text, "prev_content"@)
}

/// Where a URI is read from the event `text`.
pub open spec fn uris(text: Seq<u8>) -> Seq<int> {
    if is_redacted(text) {
        Seq::empty()
    } else if is_state_event(text) {
        if is_of_type(text, "m.room.avatar"@) {
            avatar_uris(text, state_contents(text))
        } else if is_of_type(text, "m.room.member"@) {
            crate::text::fields(text, state_contents(text), "avatar_url"@, Some(0))
        } else {
            Seq::empty()
        }
    } else if is_of_type(text, "m.room.message"@) {
        message_uris(text, event_member(text, "content"@))
    } else if is_of_type(text, "m.sticker"@) {
        sticker_uris(text, event_member(text, "content"@))
    } else {
        Seq::empty()
    }
}

/// Where the signatures are of the invitations of third parties in the contents
/// `contents`.
pub open spec fn signatures(text: Seq<u8>, contents: Seq<int>) -> Seq<int> {
    let invites = crate::text::fields(text, contents, "third_party_invite"@, Some(4));
    let signed = crate::text::fields(text, invites, "signed"@, Some(1));
    crate::text::fields(text, signed, "signatures"@, Some(1))
}

/// Where a key ID is read from the event `text`: those that the signatures of each
/// server are under.
pub open spec fn key_ids(text: Seq<u8>) -> Seq<int> {
    if !is_redacted(text) && is_state_event(text) && is_of_type(text, "m.room.member"@) {
        let servers = crate::text::members(text, signatures(text, state_contents(text)));
        crate::text::members(
            text,
            servers.map_values(|item: int| crate::text::member_value(text, item)),
        )
    } else {
        Seq::empty()
    }
}

/// Whether no identifier that is read from the event with the JSON text `json` is
/// too long for that.
pub open spec fn identifiers_fit(json: Seq<char>) -> bool {
    let text = vstd::utf8::encode_utf8(json);
    &&& forall|k: int| 0 <= k < uris(text).len() ==> !is_oversized_uri(text, #[trigger] uris(text)[k])
    &&& forall|k: int|
        0 <= k < key_ids(text).len() ==> !is_oversized_key_id(text, #[trigger] key_ids(text)[k])
}

/// In an event that is not a message, a sticker, the avatar of a room or a member,
/// no identifier is too long. Neither is one in a message without media and without
/// a location, whatever its texts are, nor in a redacted event.
pub proof fn law_identifiers_fit_where_none_is_read(json: Seq<char>)
    ensures
        ({
            let text = vstd::utf8::encode_utf8(json);
            let kinds = crate::text::fields(
                text,
                event_member(text, "content"@),
                "msgtype"@,
                None,
            );
            ||| is_redacted(text)
            ||| is_state_event(text) && !is_of_type(text, "m.room.avatar"@) && !is_of_type(
                text,
                "m.room.member"@,
            )
            ||| !is_state_event(text) && !is_of_type(text, "m.room.message"@) && !is_of_type(
                text,
                "m.sticker"@,
            )
            ||| !is_state_event(text) && is_of_type(text, "m.room.message"@)
                && !crate::text::some_text(text, kinds, "m.audio"@)
                && !crate::text::some_text(text, kinds, "m.file"@)
                && !crate::text::some_text(text, kinds, "m.image"@)
                && !crate::text::some_text(text, kinds, "m.video"@)
                && !crate::text::some_text(text, kinds, "m.location"@)
        }) ==> identifiers_fit(json),
{
}

/// The steps through the text of a string from `i` on: the code of each, how many
/// bytes it stands for in UTF-8, and whether a character starts with it.
pub open spec fn steps_from(text: Seq<u8>, i: int) -> Seq<(u32, usize, bool)>
    decreases text.len() - i,
{
    let unit = crate::text::unit_at(text, i);
    if i >= text.len() || text[i] == QUOTE {
        Seq::empty()
    } else {
        seq![(unit.code, unit.size, unit.starts)] + steps_from(text, i + unit.width)
    }
}

proof fn lemma_same_steps(one: Seq<u8>, i: int, other: Seq<u8>, j: int)
    requires
        steps_from(one, i) == steps_from(other, j),
    ensures
        (i >= one.len() || one[i] == QUOTE) <==> (j >= other.len() || other[j] == QUOTE),
        !(i >= one.len() || one[i] == QUOTE) ==> {
            let unit = crate::text::unit_at(one, i);
            let same = crate::text::unit_at(other, j);
            &&& unit.code == same.code && unit.size == same.size && unit.starts == same.starts
            &&& steps_from(one, i + unit.width) == steps_from(other, j + same.width)
        },
{
    let steps = steps_from(one, i);
    if !(i >= one.len() || one[i] == QUOTE) {
        assert(steps.len() > 0);
        assert(!(j >= other.len() || other[j] == QUOTE));
        let unit = crate::text::unit_at(one, i);
        let same = crate::text::unit_at(other, j);
        assert(steps[0] == (unit.code, unit.size, unit.starts));
        assert(steps[0] == (same.code, same.size, same.starts));
        assert(steps.drop_first() =~= steps_from(one, i + unit.width));
        assert(steps.drop_first() =~= steps_from(other, j + same.width));
    } else if !(j >= other.len() || other[j] == QUOTE) {
        assert(steps_from(other, j).len() > 0);
    }
}

proof fn lemma_same_chars(
    one: Seq<u8>,
    i: int,
    other: Seq<u8>,
    j: int,
    wanted: Seq<char>,
    n: int,
)
    requires
        steps_from(one, i) == steps_from(other, j),
    ensures
        match (
            crate::text::after_chars(one, i, wanted, n),
            crate::text::after_chars(other, j, wanted, n),
        ) {
            (Some(a), Some(b)) => steps_from(one, a) == steps_from(other, b),
            (None, None) => true,
            _ => false,
        },
    decreases wanted.len() - n,
{
    lemma_same_steps(one, i, other, j);
    if n < wanted.len() && !(i >= one.len() || one[i] == QUOTE) {
        lemma_same_chars(
            one,
            i + crate::text::unit_at(one, i).width,
            other,
            j + crate::text::unit_at(other, j).width,
            wanted,
            n + 1,
        );
    }
}

proof fn lemma_same_server_name(one: Seq<u8>, i: int, other: Seq<u8>, j: int)
    requires
        steps_from(one, i) == steps_from(other, j),
    ensures
        match (server_name(one, i), server_name(other, j)) {
            (Some((name, a)), Some((same, b))) => name == same && steps_from(one, a) == steps_from(
                other,
                b,
            ),
            (None, None) => true,
            _ => false,
        },
    decreases one.len() - i,
{
    lemma_same_steps(one, i, other, j);
    if !(i >= one.len() || one[i] == QUOTE) {
        lemma_same_server_name(
            one,
            i + crate::text::unit_at(one, i).width,
            other,
            j + crate::text::unit_at(other, j).width,
        );
    }
}

proof fn lemma_same_media_id(one: Seq<u8>, i: int, other: Seq<u8>, j: int)
    requires
        steps_from(one, i) == steps_from(other, j),
    ensures
        is_media_id(one, i) == is_media_id(other, j),
    decreases one.len() - i,
{
    lemma_same_steps(one, i, other, j);
    if !(i >= one.len() || one[i] == QUOTE) {
        lemma_same_media_id(
            one,
            i + crate::text::unit_at(one, i).width,
            other,
            j + crate::text::unit_at(other, j).width,
        );
    }
}

proof fn lemma_same_offsets(
    one: Seq<u8>,
    i: int,
    other: Seq<u8>,
    j: int,
    offset: int,
    target: int,
)
    requires
        steps_from(one, i) == steps_from(other, j),
    ensures
        colon_offset(one, i, offset) == colon_offset(other, j, offset),
        starts_at(one, i, offset, target) == starts_at(other, j, offset, target),
    decreases one.len() - i,
{
    lemma_same_steps(one, i, other, j);
    if !(i >= one.len() || one[i] == QUOTE) {
        let size = crate::text::unit_at(one, i).size;
        lemma_same_offsets(
            one,
            i + crate::text::unit_at(one, i).width,
            other,
            j + crate::text::unit_at(other, j).width,
            offset + size,
            target,
        );
    }
}

/// Whether a string is too long depends on what it stands for alone, and not on how
/// it is written, with escapes or without.
pub proof fn law_writing_of_identifiers_does_not_matter(
    one: Seq<u8>,
    at: int,
    other: Seq<u8>,
    same: int,
)
    requires
        0 <= at < one.len() && one[at] == QUOTE,
        0 <= same < other.len() && other[same] == QUOTE,
        steps_from(one, at + 1) == steps_from(other, same + 1),
    ensures
        is_oversized_uri(one, at) == is_oversized_uri(other, same),
        is_oversized_key_id(one, at) == is_oversized_key_id(other, same),
{
    lemma_same_chars(one, at + 1, other, same + 1, "mxc://"@, 0);
    if let Some(i) = crate::text::after_chars(one, at + 1, "mxc://"@, 0) {
        let j = crate::text::after_chars(other, same + 1, "mxc://"@, 0)->Some_0;
        lemma_same_server_name(one, i, other, j);
        if let Some((_, rest)) = server_name(one, i) {
            lemma_same_media_id(one, rest, other, server_name(other, j)->Some_0.1);
        }
    }
    lemma_same_offsets(one, at + 1, other, same + 1, 0, 0);
    if let Some(colon) = colon_offset(one, at + 1, 0) {
        lemma_same_offsets(one, at + 1, other, same + 1, 0, colon % 256 + 1);
    }
}

proof fn lemma_chars_are_inside(text: Seq<u8>, i: int, wanted: Seq<char>, n: int)
    requires
        0 <= i <= text.len(),
        0 <= n <= wanted.len(),
    ensures
        crate::text::after_chars(text, i, wanted, n) matches Some(end) ==> {
            &&& i + wanted.len() - n <= end <= text.len()
            &&& crate::text::string_end(text, end) == crate::text::string_end(text, i)
        },
    decreases wanted.len() - n,
{
    if n < wanted.len() && !(i >= text.len() || text[i] == QUOTE) {
        lemma_chars_are_inside(text, i + crate::text::unit_at(text, i).width, wanted, n + 1);
    }
}

/// Which string a value is depends on what it stands for alone, and not on how it is
/// written, with escapes or without.
pub proof fn law_writing_of_strings_does_not_matter(
    one: Seq<u8>,
    at: int,
    other: Seq<u8>,
    same: int,
    wanted: Seq<char>,
)
    requires
        0 <= at < one.len() && one[at] == QUOTE,
        0 <= same < other.len() && other[same] == QUOTE,
        steps_from(one, at + 1) == steps_from(other, same + 1),
        crate::text::string_end(one, at + 1) < one.len(),
        crate::text::string_end(other, same + 1) < other.len(),
    ensures
        crate::text::is_text(one, at, wanted) == crate::text::is_text(other, same, wanted),
{
    lemma_same_chars(one, at + 1, other, same + 1, wanted, 0);
    lemma_chars_are_inside(one, at + 1, wanted, 0);
    lemma_chars_are_inside(other, same + 1, wanted, 0);
    if let Some(end) = crate::text::after_chars(one, at + 1, wanted, 0) {
        let behind = crate::text::after_chars(other, same + 1, wanted, 0)->Some_0;
        crate::text::lemma_string_end(one, end);
        crate::text::lemma_string_end(other, behind);
        lemma_same_steps(one, end, other, behind);
    }
}

proof fn lemma_server_name_is_inside(text: Seq<u8>, i: int)
    requires
        0 <= i <= text.len(),
    ensures
        server_name(text, i) matches Some((name, rest)) ==> i + name.len() + 1
            <= crate::text::string_end(text, i),
    decreases text.len() - i,
{
    if !(i >= text.len() || text[i] == QUOTE) {
        let next = i + crate::text::unit_at(text, i).width;
        crate::text::lemma_string_end(text, next);
        lemma_server_name_is_inside(text, next);
    }
}

proof fn lemma_colon_is_inside(text: Seq<u8>, i: int, offset: int)
    requires
        0 <= i <= text.len(),
    ensures
        colon_offset(text, i, offset) matches Some(colon) ==> colon - offset
            < crate::text::string_end(text, i) - i,
    decreases text.len() - i,
{
    if !(i >= text.len() || text[i] == QUOTE) {
        let unit = crate::text::unit_at(text, i);
        crate::text::lemma_string_end(text, i + unit.width);
        lemma_colon_is_inside(text, i + unit.width, offset + unit.size);
    }
}

/// Only a string of more than 256 bytes is too long as a URI or as a key ID.
pub proof fn law_only_long_strings_are_oversized(text: Seq<u8>, at: int)
    requires
        is_oversized_uri(text, at) || is_oversized_key_id(text, at),
    ensures
        0 <= at < text.len() && text[at] == 0x22,
        crate::text::string_end(text, at + 1) - (at + 1) > 256,
{
    reveal_strlit("mxc://");
    if is_oversized_uri(text, at) {
        lemma_chars_are_inside(text, at + 1, "mxc://"@, 0);
        let i = crate::text::after_chars(text, at + 1, "mxc://"@, 0)->Some_0;
        lemma_server_name_is_inside(text, i);
    } else {
        lemma_colon_is_inside(text, at + 1, 0);
    }
}

/// Every event without a string of more than 256 bytes fits, wherever its strings
/// stand.
pub proof fn law_events_with_short_strings_fit(json: Seq<char>)
    requires
        ({
            let text = vstd::utf8::encode_utf8(json);
            forall|at: int|
                0 <= at < text.len() && #[trigger] text[at] == 0x22 ==> crate::text::string_end(
                    text,
                    at + 1,
                ) - (at + 1) <= 256
        }),
    ensures
        identifiers_fit(json),
{
    let text = vstd::utf8::encode_utf8(json);
    assert forall|k: int| 0 <= k < uris(text).len() implies !is_oversized_uri(
        text,
        #[trigger] uris(text)[k],
    ) by {
        if is_oversized_uri(text, uris(text)[k]) {
            law_only_long_strings_are_oversized(text, uris(text)[k]);
        }
    }
    assert forall|k: int| 0 <= k < key_ids(text).len() implies !is_oversized_key_id(
        text,
        #[trigger] key_ids(text)[k],
    ) by {
        if is_oversized_key_id(text, key_ids(text)[k]) {
            law_only_long_strings_are_oversized(text, key_ids(text)[k]);
        }
    }
}

/// Every event without escapes in which each quote is followed by another one within
/// 257 bytes fits.
pub proof fn law_events_with_near_quotes_fit(json: Seq<char>)
    requires
        ({
            let text = vstd::utf8::encode_utf8(json);
            &&& forall|k: int| 0 <= k < text.len() ==> #[trigger] text[k] != 0x5c
            &&& forall|at: int|
                0 <= at < text.len() && #[trigger] text[at] == 0x22 ==> exists|end: int|
                    at < end <= at + 257 && end < text.len() && #[trigger] text[end] == 0x22
        }),
    ensures
        identifiers_fit(json),
{
    let text = vstd::utf8::encode_utf8(json);
    assert forall|at: int|
        0 <= at < text.len() && #[trigger] text[at] == 0x22 implies crate::text::string_end(
        text,
        at + 1,
    ) - (at + 1) <= 256 by {
        let end = choose|end: int|
            at < end <= at + 257 && end < text.len() && #[trigger] text[end] == 0x22;
        lemma_string_ends_before(text, at + 1, end);
    }
    law_events_with_short_strings_fit(json);
}

proof fn lemma_string_ends_before(text: Seq<u8>, i: int, end: int)
    requires
        0 <= i <= end < text.len(),
        text[end] == 0x22,
        forall|k: int| 0 <= k < text.len() ==> #[trigger] text[k] != 0x5c,
    ensures
        crate::text::string_end(text, i) <= end,
    decreases end - i,
{
    if text[i] != 0x22 {
        assert(text[i] != 0x5c);
        lemma_string_ends_before(text, i + 1, end);
    }
}

fn alphanumeric(code: u32) -> (res: bool)
    ensures
        res == is_alphanumeric(code),
{
    (0x30 <= code && code <= 0x39) || (0x41 <= code && code <= 0x5a) || (0x61 <= code && code
        <= 0x7a)
}

fn find_server_name(text: &[u8], start: usize) -> (res: Option<(Vec<u8>, usize)>)
    requires
        start <= text@.len(),
    ensures
        match res {
            Some((name, rest)) => {
                &&& server_name(text@, start as int) == Some((name@, rest as int))
                &&& rest <= text@.len()
                &&& name@.len() <= text@.len()
                &&& forall|k: int| 0 <= k < name@.len() ==> #[trigger] name@[k] < 0x80
            },
            None => server_name(text@, start as int) is None,
        },
{
    let mut name: Vec<u8> = Vec::new();
    let mut i: usize = start;
    proof {
        if let Some((rest, _)) = server_name(text@, i as int) {
            assert(name@ + rest =~= rest);
        }
    }
    while i < text.len() && text[i] != QUOTE
        invariant
            start <= i <= text@.len(),
            name@.len() <= i,
            forall|k: int| 0 <= k < name@.len() ==> #[trigger] name@[k] < 0x80,
            server_name(text@, start as int) == match server_name(text@, i as int) {
                Some((more, rest)) => Some((name@ + more, rest)),
                None => None,
            },
        decreases text@.len() - i,
    {
        let unit = read_unit(text, i);
        if unit.code == SLASH as u32 {
            assert(name@ + Seq::<u8>::empty() =~= name@);
            return Some((name, i + unit.width));
        }
        if unit.code >= 0x80 {
            return None;
        }
        let ghost before = name@;
        let byte: u8 = unit.code as u8;
        name.push(byte);
        proof {
            if let Some((more, _)) = server_name(text@, i + unit.width) {
                assert(before + (seq![byte] + more) =~= name@ + more);
            }
        }
        i += unit.width;
    }
    None
}

fn check_media_id(text: &[u8], start: usize) -> (res: bool)
    requires
        start <= text@.len(),
    ensures
        res == is_media_id(text@, start as int),
{
    let mut i: usize = start;
    while i < text.len() && text[i] != QUOTE
        invariant
            i <= text@.len(),
            is_media_id(text@, i as int) == is_media_id(text@, start as int),
        decreases text@.len() - i,
    {
        let unit = read_unit(text, i);
        if !(alphanumeric(unit.code) || unit.code == 0x2d) {
            return false;
        }
        i += unit.width;
    }
    true
}

fn check_uri(text: &[u8], at: usize) -> (res: bool)
    ensures
        res == is_oversized_uri(text@, at as int),
{
    if at >= text.len() || text[at] != QUOTE {
        return false;
    }
    match find_after_chars(text, at + 1, "mxc://") {
        Some(start) => match find_server_name(text, start) {
            Some((name, media_id)) => name.len() % 256 == 250 && check_media_id(text, media_id)
                && parse_server_name(name.as_slice()),
            None => false,
        },
        None => false,
    }
}

fn find_colon(text: &[u8], start: usize) -> (res: Option<usize>)
    requires
        start <= text@.len(),
    ensures
        match res {
            Some(colon) => colon_offset(text@, start as int, 0) == Some(colon as int),
            None => colon_offset(text@, start as int, 0) is None,
        },
{
    let mut i: usize = start;
    let mut offset: usize = 0;
    while i < text.len() && text[i] != QUOTE
        invariant
            offset <= i <= text@.len(),
            colon_offset(text@, i as int, offset as int) == colon_offset(text@, start as int, 0),
        decreases text@.len() - i,
    {
        let unit = read_unit(text, i);
        if unit.code == COLON as u32 {
            return Some(offset);
        }
        i += unit.width;
        offset += unit.size;
    }
    None
}

fn character_starts_at(text: &[u8], start: usize, target: usize) -> (res: bool)
    requires
        start <= text@.len(),
    ensures
        res == starts_at(text@, start as int, 0, target as int),
{
    let mut i: usize = start;
    let mut offset: usize = 0;
    while i < text.len() && text[i] != QUOTE
        invariant
            offset <= i <= text@.len(),
            starts_at(text@, i as int, offset as int, target as int) == starts_at(
                text@,
                start as int,
                0,
                target as int,
            ),
        decreases text@.len() - i,
    {
        let unit = read_unit(text, i);
        if offset >= target {
            return offset == target && unit.starts;
        }
        i += unit.width;
        offset += unit.size;
    }
    offset == target
}

fn check_key_id(text: &[u8], at: usize) -> (res: bool)
    ensures
        res == is_oversized_key_id(text@, at as int),
{
    if at >= text.len() || text[at] != QUOTE {
        return false;
    }
    match find_colon(text, at + 1) {
        Some(colon) => colon >= 256 && colon % 256 != 0 && !character_starts_at(
            text,
            at + 1,
            colon % 256 + 1,
        ),
        None => false,
    }
}

fn find_event_member(text: &[u8], name: &str) -> (res: Vec<usize>)
    ensures
        crate::text::positions(res@) == event_member(text@, name@),
{
    let mut event: Vec<usize> = Vec::new();
    event.push(find_after_space(text, 0));
    let ghost root = crate::text::skip_space(text@, 0);
    assert(crate::text::positions(event@) =~= seq![root]);
    assert(seq![root].drop_last() =~= Seq::<int>::empty());
    assert(crate::text::fields(text@, seq![root], name@, None) =~= crate::text::field(
        text@,
        root,
        name@,
        None,
    )) by {
        reveal_with_fuel(crate::text::fields, 2);
    }
    find_fields(text, &event, name, None)
}

fn find_file_uris(text: &[u8], files: &Vec<usize>) -> (res: Vec<usize>)
    ensures
        crate::text::positions(res@) == file_uris(text@, crate::text::positions(files@)),
{
    find_fields(text, files, "url", Some(0))
}

fn find_thumbnail_uris(text: &[u8], infos: &Vec<usize>, url: usize, file: usize) -> (res: Vec<
    usize,
>)
    ensures
        crate::text::positions(res@) == thumbnail_uris(
            text@,
            crate::text::positions(infos@),
            url,
            file,
        ),
{
    let files = find_fields(text, infos, "thumbnail_file", Some(file));
    join(find_fields(text, infos, "thumbnail_url", Some(url)), find_file_uris(text, &files))
}

fn find_media_uris(text: &[u8], contents: &Vec<usize>) -> (res: Vec<usize>)
    ensures
        crate::text::positions(res@) == media_uris(text@, crate::text::positions(contents@)),
{
    let files = find_fields(text, contents, "file", None);
    join(find_fields(text, contents, "url", None), find_file_uris(text, &files))
}

fn find_message_uris(text: &[u8], contents: &Vec<usize>) -> (res: Vec<usize>)
    ensures
        crate::text::positions(res@) == message_uris(text@, crate::text::positions(contents@)),
{
    let kinds = find_fields(text, contents, "msgtype", None);
    let infos = find_fields(text, contents, "info", None);
    if has_text(text, &kinds, "m.audio") {
        find_media_uris(text, contents)
    } else if has_text(text, &kinds, "m.file") {
        join(find_media_uris(text, contents), find_thumbnail_uris(text, &infos, 3, 4))
    } else if has_text(text, &kinds, "m.image") {
        join(find_media_uris(text, contents), find_thumbnail_uris(text, &infos, 5, 6))
    } else if has_text(text, &kinds, "m.video") {
        join(find_media_uris(text, contents), find_thumbnail_uris(text, &infos, 6, 7))
    } else if has_text(text, &kinds, "m.location") {
        find_thumbnail_uris(text, &infos, 0, 1)
    } else {
        no_positions()
    }
}

fn no_positions() -> (res: Vec<usize>)
    ensures
        crate::text::positions(res@) == Seq::<int>::empty(),
{
    let res: Vec<usize> = Vec::new();
    assert(crate::text::positions(res@) =~= Seq::<int>::empty());
    res
}

fn find_state_contents(text: &[u8]) -> (res: Vec<usize>)
    ensures
        crate::text::positions(res@) == state_contents(text@),
{
    join(find_event_member(text, "content"), find_event_member(text, "prev_content"))
}

fn check_redacted(text: &[u8]) -> (res: bool)
    ensures
        res == is_redacted(text@),
{
    let unsigned = find_event_member(text, "unsigned");
    let because = find_fields(text, &unsigned, "redacted_because", Some(0));
    has_value(text, &because)
}

fn check_state_event(text: &[u8]) -> (res: bool)
    ensures
        res == is_state_event(text@),
{
    let state_key = find_event_member(text, "state_key");
    has_value(text, &state_key)
}

fn check_type(text: &[u8], wanted: &str) -> (res: bool)
    ensures
        res == is_of_type(text@, wanted@),
{
    let kinds = find_event_member(text, "type");
    has_text(text, &kinds, wanted)
}

fn find_uris(text: &[u8]) -> (res: Vec<usize>)
    ensures
        crate::text::positions(res@) == uris(text@),
{
    if check_redacted(text) {
        no_positions()
    } else if check_state_event(text) {
        let contents = find_state_contents(text);
        if check_type(text, "m.room.avatar") {
            let infos = find_fields(text, &contents, "info", Some(0));
            join(
                find_fields(text, &contents, "url", Some(1)),
                find_fields(text, &infos, "thumbnail_url", Some(5)),
            )
        } else if check_type(text, "m.room.member") {
            find_fields(text, &contents, "avatar_url", Some(0))
        } else {
            no_positions()
        }
    } else {
        let contents = find_event_member(text, "content");
        if check_type(text, "m.room.message") {
            find_message_uris(text, &contents)
        } else if check_type(text, "m.sticker") {
            let infos = find_fields(text, &contents, "info", Some(1));
            join(
                find_fields(text, &contents, "url", Some(2)),
                find_thumbnail_uris(text, &infos, 5, 6),
            )
        } else {
            no_positions()
        }
    }
}

fn find_key_ids(text: &[u8]) -> (res: Vec<usize>)
    ensures
        crate::text::positions(res@) == key_ids(text@),
{
    if !check_redacted(text) && check_state_event(text) && check_type(text, "m.room.member") {
        let contents = find_state_contents(text);
        let invites = find_fields(text, &contents, "third_party_invite", Some(4));
        let signed = find_fields(text, &invites, "signed", Some(1));
        let signatures = find_fields(text, &signed, "signatures", Some(1));
        let servers = find_members(text, &signatures);
        let keys = find_values(text, &servers);
        find_members(text, &keys)
    } else {
        no_positions()
    }
}

/// Whether no identifier that is read from the event with the JSON text `json` is
/// too long for that.
pub fn check_identifiers(json: &str) -> (res: bool)
    ensures
        res == identifiers_fit(json@),
{
    let text = json.as_bytes();
    let found = find_uris(text);
    let mut k: usize = 0;
    while k < found.len()
        invariant
            k <= found@.len(),
            text@ == vstd::utf8::encode_utf8(json@),
            crate::text::positions(found@) == uris(text@),
            forall|j: int| 0 <= j < k ==> !is_oversized_uri(text@, #[trigger] uris(text@)[j]),
        decreases found@.len() - k,
    {
        assert(uris(text@)[k as int] == found@[k as int]);
        if check_uri(text, found[k]) {
            return false;
        }
        k += 1;
    }
    let keys = find_key_ids(text);
    let mut n: usize = 0;
    while n < keys.len()
        invariant
            n <= keys@.len(),
            text@ == vstd::utf8::encode_utf8(json@),
            crate::text::positions(keys@) == key_ids(text@),
            forall|j: int|
                0 <= j < n ==> !is_oversized_key_id(text@, #[trigger] key_ids(text@)[j]),
        decreases keys@.len() - n,
    {
        assert(key_ids(text@)[n as int] == keys@[n as int]);
        if check_key_id(text, keys[n]) {
            return false;
        }
        n += 1;
    }
    true
}

} // verus!
