//! JSON texts told by the values that they are written from, to say of whole values
//! what is found in their texts.
use vstd::prelude::*;
use crate::identifiers::COLON;
use crate::text::{
    BACKSLASH, CLOSE_BRACE, CLOSE_BRACKET, COMMA, NULL_START, OPEN_BRACE, OPEN_BRACKET, QUOTE,
};

verus! {

/// A JSON value that is written without escapes, with the white space in it.
pub enum Json {
    /// A number, `true`, `false` or `null`, as it is written.
    Plain(Seq<u8>),
    /// A string, in UTF-8.
    Text(Seq<u8>),
    /// An array: its elements, each with the white space before and behind it.
    List(Seq<(Seq<u8>, Json, Seq<u8>)>),
    /// An object: its members in their order, each with the white space behind it.
    Object(Seq<(Key, Json, Seq<u8>)>),
}

/// The name of a member of an object, with the white space around it.
pub struct Key {
    /// The white space before the name.
    pub before: Seq<u8>,
    /// The name, in UTF-8.
    pub name: Seq<u8>,
    /// The white space between the name and the colon.
    pub behind: Seq<u8>,
    /// The white space between the colon and the value.
    pub after_colon: Seq<u8>,
}

/// Whether `bytes` are all white space.
pub open spec fn is_blank(bytes: Seq<u8>) -> bool {
    forall|k: int|
        0 <= k < bytes.len() ==> #[trigger] bytes[k] == 0x20 || bytes[k] == 0x09 || bytes[k] == 0x0a
            || bytes[k] == 0x0d
}

impl Key {
    /// Whether the name can be written as it is.
    pub open spec fn valid(self) -> bool {
        is_blank(self.before) && is_raw(self.name) && is_blank(self.behind) && is_blank(
            self.after_colon,
        )
    }

    /// How the name is written, up to the value.
    pub open spec fn written(self) -> Seq<u8> {
        seq![0x22u8] + self.name + seq![0x22u8] + (self.behind + (seq![0x3au8] + self.after_colon))
    }
}

/// Whether `byte` has no part in how a text is made up.
pub open spec fn is_plain(byte: u8) -> bool {
    &&& byte != 0x22 && byte != 0x2c
    &&& byte != 0x5b && byte != 0x5d && byte != 0x7b && byte != 0x7d
    &&& byte != 0x20 && byte != 0x09 && byte != 0x0a && byte != 0x0d
}

/// Whether `bytes` can be written in a string as they are.
pub open spec fn is_raw(bytes: Seq<u8>) -> bool {
    forall|k: int| 0 <= k < bytes.len() ==> #[trigger] bytes[k] != 0x22 && bytes[k] != 0x5c
}

impl Json {
    /// Whether the value can be written as it is.
    pub open spec fn valid(self) -> bool
        decreases self,
    {
        match self {
            Json::Plain(bytes) => bytes.len() > 0 && forall|k: int|
                0 <= k < bytes.len() ==> is_plain(#[trigger] bytes[k]),
            Json::Text(bytes) => is_raw(bytes),
            Json::List(values) => forall|k: int|
                0 <= k < values.len() ==> is_blank((#[trigger] values[k]).0) && values[k].1.valid()
                    && is_blank(values[k].2),
            Json::Object(members) => forall|k: int|
                0 <= k < members.len() ==> (#[trigger] members[k]).0.valid() && members[k].1.valid()
                    && is_blank(members[k].2),
        }
    }

    /// How the value is written.
    pub open spec fn written(self) -> Seq<u8>
        decreases self, 0nat,
    {
        match self {
            Json::Plain(bytes) => bytes,
            Json::Text(bytes) => seq![0x22u8] + bytes + seq![0x22u8],
            Json::List(values) => seq![0x5bu8] + written_values(values, 0) + seq![0x5du8],
            Json::Object(members) => seq![0x7bu8] + written_members(members, 0) + seq![0x7du8],
        }
    }
}

/// How what follows the `k`th of some items is written: a comma, if there is one.
pub open spec fn written_comma(k: nat, count: nat) -> Seq<u8> {
    if k + 1 < count {
        seq![0x2cu8]
    } else {
        Seq::empty()
    }
}

/// How the elements of an array are written, from the `k`th on.
pub open spec fn written_values(values: Seq<(Seq<u8>, Json, Seq<u8>)>, k: nat) -> Seq<u8>
    decreases values, values.len() - k,
{
    if k < values.len() {
        values[k as int].0 + (values[k as int].1.written() + (values[k as int].2 + (written_comma(
            k,
            values.len(),
        ) + written_values(values, k + 1))))
    } else {
        Seq::empty()
    }
}

/// How the members of an object are written, from the `k`th on.
pub open spec fn written_members(members: Seq<(Key, Json, Seq<u8>)>, k: nat) -> Seq<u8>
    decreases members, members.len() - k,
{
    if k < members.len() {
        members[k as int].0.before + (members[k as int].0.written() + (
        members[k as int].1.written() + (members[k as int].2 + (written_comma(k, members.len())
            + written_members(members, k + 1)))))
    } else {
        Seq::empty()
    }
}

/// Whether `text` has `part` at `at`.
pub open spec fn has_at(text: Seq<u8>, at: int, part: Seq<u8>) -> bool {
    &&& 0 <= at && at + part.len() <= text.len()
    &&& forall|k: int| 0 <= k < part.len() ==> text[at + k] == #[trigger] part[k]
}

/// Whether `bytes` spell the ASCII characters `chars`.
pub open spec fn spells(bytes: Seq<u8>, chars: Seq<char>) -> bool {
    &&& bytes.len() == chars.len()
    &&& forall|k: int| 0 <= k < bytes.len() ==> #[trigger] bytes[k] as u32 == chars[k] as u32
}

proof fn lemma_has_both(text: Seq<u8>, at: int, first: Seq<u8>, second: Seq<u8>)
    requires
        has_at(text, at, first + second),
    ensures
        has_at(text, at, first),
        has_at(text, at + first.len(), second),
{
    assert forall|k: int| 0 <= k < first.len() implies text[at + k] == #[trigger] first[k] by {
        assert((first + second)[k] == first[k]);
    }
    assert forall|k: int| 0 <= k < second.len() implies text[at + first.len() + k]
        == #[trigger] second[k] by {
        assert((first + second)[first.len() + k] == second[k]);
    }
}

/// Raw bytes are steps of their own, up to `end`.
proof fn lemma_raw_string(text: Seq<u8>, i: int, end: int)
    requires
        0 <= i <= end < text.len(),
        text[end] == QUOTE,
        forall|k: int| i <= k < end ==> #[trigger] text[k] != QUOTE && text[k] != BACKSLASH,
    ensures
        crate::text::string_end(text, i) == end,
        crate::text::after_string(text, i) == end + 1,
    decreases end - i,
{
    if i < end {
        assert(crate::text::unit_at(text, i).width == 1);
        lemma_raw_string(text, i + 1, end);
    }
}

/// Whether an item goes on behind `byte` at whatever depth.
spec fn passes(byte: u8) -> bool {
    byte != 0x22 && byte != 0x2c && byte != 0x5b && byte != 0x5d && byte != 0x7b && byte != 0x7d
}

proof fn lemma_bytes_pass(text: Seq<u8>, i: int, end: int, depth: nat)
    requires
        0 <= i <= end <= text.len(),
        forall|k: int| i <= k < end ==> passes(#[trigger] text[k]),
    ensures
        crate::text::item_end(text, i, depth) == crate::text::item_end(text, end, depth),
    decreases end - i,
{
    if i < end {
        assert(passes(text[i]));
        lemma_bytes_pass(text, i + 1, end, depth);
    }
}

/// White space that is written in a text.
proof fn lemma_blank_at(text: Seq<u8>, at: int, blank: Seq<u8>, depth: nat)
    requires
        is_blank(blank),
        has_at(text, at, blank),
    ensures
        crate::text::item_end(text, at, depth) == crate::text::item_end(
            text,
            at + blank.len(),
            depth,
        ),
        crate::text::skip_space(text, at) == crate::text::skip_space(text, at + blank.len()),
    decreases blank.len(),
{
    assert forall|k: int| at <= k < at + blank.len() implies passes(#[trigger] text[k]) by {
        assert(text[at + (k - at)] == blank[k - at]);
    }
    lemma_bytes_pass(text, at, at + blank.len(), depth);
    if blank.len() > 0 {
        assert(text[at] == blank[0]);
        let rest = blank.skip(1);
        assert forall|k: int| 0 <= k < rest.len() implies text[at + 1 + k] == #[trigger] rest[k] && (
        rest[k] == 0x20 || rest[k] == 0x09 || rest[k] == 0x0a || rest[k] == 0x0d) by {
            assert(rest[k] == blank[k + 1]);
        }
        lemma_blank_at(text, at + 1, rest, depth);
    }
}

/// A string that is written in a text.
proof fn lemma_text_at(text: Seq<u8>, at: int, bytes: Seq<u8>)
    requires
        is_raw(bytes),
        has_at(text, at, seq![0x22u8] + bytes + seq![0x22u8]),
    ensures
        text[at] == QUOTE,
        crate::text::after_string(text, at + 1) == at + bytes.len() + 2,
        forall|k: int| 0 <= k < bytes.len() ==> text[at + 1 + k] == #[trigger] bytes[k],
        text[at + 1 + bytes.len()] == QUOTE,
{
    lemma_has_both(text, at, seq![0x22u8] + bytes, seq![0x22u8]);
    lemma_has_both(text, at, seq![0x22u8], bytes);
    assert(text[at] == seq![0x22u8][0]);
    assert(text[at + 1 + bytes.len()] == seq![0x22u8][0]);
    assert forall|k: int| at + 1 <= k < at + 1 + bytes.len() implies #[trigger] text[k] != QUOTE
        && text[k] != BACKSLASH by {
        assert(text[at + 1 + (k - at - 1)] == bytes[k - at - 1]);
    }
    lemma_raw_string(text, at + 1, at + 1 + bytes.len());
}

/// The name of a member that is written in a text.
proof fn lemma_key_at(text: Seq<u8>, at: int, key: Key, depth: nat)
    requires
        key.valid(),
        has_at(text, at, key.written()),
        at + key.written().len() < text.len(),
        !crate::text::is_space(text[at + key.written().len()]),
    ensures
        text[at] == QUOTE,
        has_at(text, at, seq![0x22u8] + key.name + seq![0x22u8]),
        crate::text::member_value(text, at) == at + key.written().len(),
        crate::text::item_end(text, at, depth) == crate::text::item_end(
            text,
            at + key.written().len(),
            depth,
        ),
{
    let quoted = seq![0x22u8] + key.name + seq![0x22u8];
    lemma_has_both(text, at, quoted, key.behind + (seq![0x3au8] + key.after_colon));
    lemma_text_at(text, at, key.name);
    let behind = at + quoted.len();
    lemma_has_both(text, behind, key.behind, seq![0x3au8] + key.after_colon);
    let colon = behind + key.behind.len();
    lemma_has_both(text, colon, seq![0x3au8], key.after_colon);
    assert(text[colon] == seq![0x3au8][0]);
    lemma_blank_at(text, behind, key.behind, depth);
    lemma_blank_at(text, colon + 1, key.after_colon, depth);
    assert(crate::text::skip_space(text, colon) == colon);
    let end = at + key.written().len();
    assert(colon + 1 + key.after_colon.len() == end);
    assert(crate::text::skip_space(text, end) == end);
    assert(crate::text::item_end(text, at, depth) == crate::text::item_end(text, behind, depth));
    assert(crate::text::item_end(text, colon, depth) == crate::text::item_end(
        text,
        colon + 1,
        depth,
    ));
}

/// An item of an array or object goes on behind a value as if the value were not
/// there.
proof fn lemma_value_passes(text: Seq<u8>, at: int, value: Json, depth: nat)
    requires
        value.valid(),
        has_at(text, at, value.written()),
    ensures
        crate::text::item_end(text, at, depth) == crate::text::item_end(
            text,
            at + value.written().len(),
            depth,
        ),
    decreases value, 0nat,
{
    match value {
        Json::Plain(bytes) => {
            assert forall|k: int| at <= k < at + bytes.len() implies passes(#[trigger] text[k]) by {
                assert(text[at + (k - at)] == bytes[k - at]);
                assert(is_plain(bytes[k - at]));
            }
            lemma_bytes_pass(text, at, at + bytes.len(), depth);
        },
        Json::Text(bytes) => {
            lemma_text_at(text, at, bytes);
        },
        Json::List(values) => {
            let inner = written_values(values, 0);
            lemma_has_both(text, at, seq![0x5bu8] + inner, seq![0x5du8]);
            lemma_has_both(text, at, seq![0x5bu8], inner);
            assert(text[at] == seq![0x5bu8][0]);
            assert(text[at + 1 + inner.len()] == seq![0x5du8][0]);
            lemma_values_pass(text, at + 1, values, 0, depth + 1);
        },
        Json::Object(members) => {
            let inner = written_members(members, 0);
            lemma_has_both(text, at, seq![0x7bu8] + inner, seq![0x7du8]);
            lemma_has_both(text, at, seq![0x7bu8], inner);
            assert(text[at] == seq![0x7bu8][0]);
            assert(text[at + 1 + inner.len()] == seq![0x7du8][0]);
            lemma_members_pass(text, at + 1, members, 0, depth + 1);
        },
    }
}

proof fn lemma_values_pass(
    text: Seq<u8>,
    at: int,
    values: Seq<(Seq<u8>, Json, Seq<u8>)>,
    k: nat,
    depth: nat,
)
    requires
        forall|j: int|
            0 <= j < values.len() ==> is_blank((#[trigger] values[j]).0) && values[j].1.valid()
                && is_blank(values[j].2),
        has_at(text, at, written_values(values, k)),
        depth > 0,
    ensures
        crate::text::item_end(text, at, depth) == crate::text::item_end(
            text,
            at + written_values(values, k).len(),
            depth,
        ),
    decreases values, values.len() - k,
{
    if k < values.len() {
        let (before, value, after) = values[k as int];
        let comma = written_comma(k, values.len());
        let rest = written_values(values, k + 1);
        assert(is_blank(values[k as int].0));
        lemma_has_both(text, at, before, value.written() + (after + (comma + rest)));
        let start = at + before.len();
        lemma_has_both(text, start, value.written(), after + (comma + rest));
        let behind = start + value.written().len();
        lemma_has_both(text, behind, after, comma + rest);
        let end = behind + after.len();
        lemma_has_both(text, end, comma, rest);
        lemma_blank_at(text, at, before, depth);
        lemma_value_passes(text, start, value, depth);
        lemma_blank_at(text, behind, after, depth);
        if comma.len() > 0 {
            assert(text[end] == comma[0]);
        }
        lemma_values_pass(text, end + comma.len(), values, k + 1, depth);
    }
}

proof fn lemma_members_pass(
    text: Seq<u8>,
    at: int,
    members: Seq<(Key, Json, Seq<u8>)>,
    k: nat,
    depth: nat,
)
    requires
        forall|j: int|
            0 <= j < members.len() ==> (#[trigger] members[j]).0.valid() && members[j].1.valid()
                && is_blank(members[j].2),
        has_at(text, at, written_members(members, k)),
        depth > 0,
    ensures
        crate::text::item_end(text, at, depth) == crate::text::item_end(
            text,
            at + written_members(members, k).len(),
            depth,
        ),
    decreases members, members.len() - k,
{
    if k < members.len() {
        let (key, value, after) = members[k as int];
        let comma = written_comma(k, members.len());
        let rest = written_members(members, k + 1);
        assert(members[k as int].0.valid());
        lemma_has_both(
            text,
            at,
            key.before,
            key.written() + (value.written() + (after + (comma + rest))),
        );
        let named = at + key.before.len();
        lemma_has_both(text, named, key.written(), value.written() + (after + (comma + rest)));
        let start = named + key.written().len();
        lemma_has_both(text, start, value.written(), after + (comma + rest));
        let behind = start + value.written().len();
        lemma_has_both(text, behind, after, comma + rest);
        let end = behind + after.len();
        lemma_has_both(text, end, comma, rest);
        lemma_value_starts(value);
        assert(text[start] == value.written()[0]);
        lemma_blank_at(text, at, key.before, depth);
        lemma_key_at(text, named, key, depth);
        lemma_value_passes(text, start, value, depth);
        lemma_blank_at(text, behind, after, depth);
        if comma.len() > 0 {
            assert(text[end] == comma[0]);
        }
        lemma_members_pass(text, end + comma.len(), members, k + 1, depth);
    }
}

/// A value is not empty, and starts with what is neither white space nor a closing
/// bracket.
proof fn lemma_value_starts(value: Json)
    requires
        value.valid(),
    ensures
        value.written().len() > 0,
        !crate::text::is_space(value.written()[0]),
        value.written()[0] != CLOSE_BRACE,
        value.written()[0] != CLOSE_BRACKET,
{
    match value {
        Json::Plain(bytes) => {
            assert(is_plain(bytes[0]));
        },
        Json::Text(bytes) => {},
        Json::List(values) => {},
        Json::Object(members) => {},
    }
}

/// The items of an array are its elements.
proof fn lemma_values_from(
    text: Seq<u8>,
    at: int,
    values: Seq<(Seq<u8>, Json, Seq<u8>)>,
    k: nat,
)
    requires
        forall|j: int|
            0 <= j < values.len() ==> is_blank((#[trigger] values[j]).0) && values[j].1.valid()
                && is_blank(values[j].2),
        k <= values.len(),
        has_at(text, at, written_values(values, k)),
        at + written_values(values, k).len() < text.len(),
        text[at + written_values(values, k).len()] == CLOSE_BRACKET,
    ensures
        crate::text::items_from(text, at).len() == values.len() - k,
        forall|j: int|
            0 <= j < values.len() - k ==> has_at(
                text,
                #[trigger] crate::text::items_from(text, at)[j],
                values[k + j].1.written(),
            ),
    decreases values.len() - k,
{
    if k < values.len() {
        let (before, value, after) = values[k as int];
        let comma = written_comma(k, values.len());
        let rest = written_values(values, k + 1);
        assert(is_blank(values[k as int].0));
        lemma_has_both(text, at, before, value.written() + (after + (comma + rest)));
        let start = at + before.len();
        lemma_has_both(text, start, value.written(), after + (comma + rest));
        let behind = start + value.written().len();
        lemma_has_both(text, behind, after, comma + rest);
        let end = behind + after.len();
        lemma_has_both(text, end, comma, rest);
        lemma_value_starts(value);
        assert(text[start] == value.written()[0]);
        lemma_blank_at(text, at, before, 0);
        assert(crate::text::skip_space(text, start) == start);
        lemma_value_passes(text, start, value, 0);
        lemma_blank_at(text, behind, after, 0);
        if comma.len() > 0 {
            assert(text[end] == comma[0]);
        }
        if k + 1 < values.len() {
            assert(crate::text::item_end(text, end, 0) == end);
            lemma_values_from(text, end + 1, values, k + 1);
            assert(crate::text::items_from(text, at) =~= seq![start] + crate::text::items_from(
                text,
                end + 1,
            ));
            assert forall|j: int| 0 <= j < values.len() - k implies has_at(
                text,
                #[trigger] crate::text::items_from(text, at)[j],
                values[k + j].1.written(),
            ) by {
                if j > 0 {
                    assert(has_at(
                        text,
                        crate::text::items_from(text, end + 1)[j - 1],
                        values[(k + 1) + (j - 1)].1.written(),
                    ));
                }
            }
        } else {
            assert(rest =~= Seq::<u8>::empty());
            assert(end == at + written_values(values, k).len());
            assert(crate::text::item_end(text, end, 0) == end);
            assert(crate::text::items_from(text, at) =~= seq![start]);
        }
    } else {
        assert(crate::text::skip_space(text, at) == at);
        assert(crate::text::items_from(text, at) =~= Seq::<int>::empty());
    }
}

/// Whether the member `key` with the value `value` is written at `item`.
pub open spec fn member_at(text: Seq<u8>, item: int, key: Key, value: Json) -> bool {
    &&& has_at(text, item, seq![0x22u8] + key.name + seq![0x22u8])
    &&& has_at(text, crate::text::member_value(text, item), value.written())
}

/// The items of an object are its members.
proof fn lemma_members_from(text: Seq<u8>, at: int, members: Seq<(Key, Json, Seq<u8>)>, k: nat)
    requires
        forall|j: int|
            0 <= j < members.len() ==> (#[trigger] members[j]).0.valid() && members[j].1.valid()
                && is_blank(members[j].2),
        k <= members.len(),
        has_at(text, at, written_members(members, k)),
        at + written_members(members, k).len() < text.len(),
        text[at + written_members(members, k).len()] == CLOSE_BRACE,
    ensures
        crate::text::items_from(text, at).len() == members.len() - k,
        forall|j: int|
            0 <= j < members.len() - k ==> member_at(
                text,
                #[trigger] crate::text::items_from(text, at)[j],
                members[k + j].0,
                members[k + j].1,
            ),
    decreases members.len() - k,
{
    if k < members.len() {
        let (key, value, after) = members[k as int];
        let comma = written_comma(k, members.len());
        let rest = written_members(members, k + 1);
        assert(members[k as int].0.valid());
        lemma_has_both(
            text,
            at,
            key.before,
            key.written() + (value.written() + (after + (comma + rest))),
        );
        let named = at + key.before.len();
        lemma_has_both(text, named, key.written(), value.written() + (after + (comma + rest)));
        let start = named + key.written().len();
        lemma_has_both(text, start, value.written(), after + (comma + rest));
        let behind = start + value.written().len();
        lemma_has_both(text, behind, after, comma + rest);
        let end = behind + after.len();
        lemma_has_both(text, end, comma, rest);
        lemma_value_starts(value);
        assert(text[start] == value.written()[0]);
        lemma_blank_at(text, at, key.before, 0);
        lemma_key_at(text, named, key, 0);
        assert(crate::text::skip_space(text, named) == named);
        assert(member_at(text, named, key, value));
        lemma_value_passes(text, start, value, 0);
        lemma_blank_at(text, behind, after, 0);
        if comma.len() > 0 {
            assert(text[end] == comma[0]);
        }
        if k + 1 < members.len() {
            assert(crate::text::item_end(text, end, 0) == end);
            lemma_members_from(text, end + 1, members, k + 1);
            assert(crate::text::items_from(text, at) =~= seq![named] + crate::text::items_from(
                text,
                end + 1,
            ));
            assert forall|j: int| 0 <= j < members.len() - k implies member_at(
                text,
                #[trigger] crate::text::items_from(text, at)[j],
                members[k + j].0,
                members[k + j].1,
            ) by {
                if j > 0 {
                    assert(member_at(
                        text,
                        crate::text::items_from(text, end + 1)[j - 1],
                        members[(k + 1) + (j - 1)].0,
                        members[(k + 1) + (j - 1)].1,
                    ));
                }
            }
        } else {
            assert(rest =~= Seq::<u8>::empty());
            assert(end == at + written_members(members, k).len());
            assert(crate::text::item_end(text, end, 0) == end);
            assert(crate::text::items_from(text, at) =~= seq![named]);
        }
    } else {
        assert(crate::text::skip_space(text, at) == at);
        assert(crate::text::items_from(text, at) =~= Seq::<int>::empty());
    }
}

/// Whether `value` is the string `wanted`.
pub open spec fn is_string(value: Json, wanted: Seq<char>) -> bool {
    value matches Json::Text(bytes) && spells(bytes, wanted)
}

/// Whether `value` is `null`, the only value that starts with an `n`.
pub open spec fn is_null(value: Json) -> bool {
    value matches Json::Plain(bytes) && bytes.len() > 0 && bytes[0] == 0x6e
}

/// The values of the field `name` of the structure `value`: of its members that are
/// named so if it is an object, and the element `index` if it is an array.
pub open spec fn field_of(value: Json, name: Seq<char>, index: Option<usize>) -> Seq<Json> {
    match value {
        Json::Object(members) => members.filter(
            |member: (Key, Json, Seq<u8>)| spells(member.0.name, name),
        ).map_values(|member: (Key, Json, Seq<u8>)| member.1),
        Json::List(values) => if index is Some && index->Some_0 < values.len() {
            seq![values[index->Some_0 as int].1]
        } else {
            Seq::empty()
        },
        _ => Seq::empty(),
    }
}

/// The values of the field `name` of the structures `values`.
pub open spec fn fields_of(values: Seq<Json>, name: Seq<char>, index: Option<usize>) -> Seq<Json>
    decreases values.len(),
{
    if values.len() == 0 {
        Seq::empty()
    } else {
        fields_of(values.drop_last(), name, index) + field_of(values.last(), name, index)
    }
}

/// The members of those of `values` that are objects.
pub open spec fn members_of(values: Seq<Json>) -> Seq<(Key, Json, Seq<u8>)>
    decreases values.len(),
{
    if values.len() == 0 {
        Seq::empty()
    } else {
        members_of(values.drop_last()) + match values.last() {
            Json::Object(members) => members,
            _ => Seq::empty(),
        }
    }
}

/// Whether `values` are written at `ats`, one at each.
pub open spec fn all_at(text: Seq<u8>, ats: Seq<int>, values: Seq<Json>) -> bool {
    &&& ats.len() == values.len()
    &&& forall|k: int|
        0 <= k < ats.len() ==> (#[trigger] values[k]).valid() && has_at(
            text,
            ats[k],
            values[k].written(),
        )
}

proof fn lemma_all_at_both(
    text: Seq<u8>,
    ats: Seq<int>,
    values: Seq<Json>,
    more: Seq<int>,
    others: Seq<Json>,
)
    requires
        all_at(text, ats, values),
        all_at(text, more, others),
    ensures
        all_at(text, ats + more, values + others),
{
    assert forall|k: int| 0 <= k < (ats + more).len() implies (#[trigger] (values
        + others)[k]).valid() && has_at(text, (ats + more)[k], (values + others)[k].written()) by {
        if k < ats.len() {
            assert(values[k].valid());
        } else {
            assert(others[k - ats.len()].valid());
        }
    }
}

/// A raw string is found to be what it spells.
proof fn lemma_after_chars(text: Seq<u8>, i: int, end: int, wanted: Seq<char>, n: int)
    requires
        0 <= i <= end < text.len(),
        text[end] == QUOTE,
        forall|k: int| i <= k < end ==> #[trigger] text[k] != QUOTE && text[k] != BACKSLASH,
        0 <= n <= wanted.len(),
    ensures
        match crate::text::after_chars(text, i, wanted, n) {
            Some(behind) => {
                &&& behind == i + wanted.len() - n
                &&& behind <= end
                &&& forall|k: int|
                    i <= k < behind ==> #[trigger] text[k] as u32 == wanted[n + k - i] as u32
            },
            None => end - i < wanted.len() - n || exists|k: int|
                i <= k < i + wanted.len() - n && #[trigger] text[k] as u32 != wanted[n + k
                    - i] as u32,
        },
    decreases wanted.len() - n,
{
    if n < wanted.len() && i < end {
        assert(crate::text::unit_at(text, i).width == 1);
        if text[i] as u32 == wanted[n] as u32 {
            lemma_after_chars(text, i + 1, end, wanted, n + 1);
        } else {
            assert(text[i] as u32 != wanted[n + i - i] as u32);
        }
    }
}

proof fn lemma_is_text(text: Seq<u8>, at: int, bytes: Seq<u8>, wanted: Seq<char>)
    requires
        is_raw(bytes),
        has_at(text, at, seq![0x22u8] + bytes + seq![0x22u8]),
    ensures
        crate::text::is_text(text, at, wanted) <==> spells(bytes, wanted),
{
    lemma_text_at(text, at, bytes);
    let end = at + 1 + bytes.len();
    assert forall|k: int| at + 1 <= k < end implies #[trigger] text[k] != QUOTE && text[k]
        != BACKSLASH by {
        assert(text[at + 1 + (k - at - 1)] == bytes[k - at - 1]);
    }
    lemma_after_chars(text, at + 1, end, wanted, 0);
    if spells(bytes, wanted) {
        assert forall|k: int| at + 1 <= k < end implies #[trigger] text[k] as u32 == wanted[k
            - at - 1] as u32 by {
            assert(text[at + 1 + (k - at - 1)] == bytes[k - at - 1]);
        }
    }
    if crate::text::is_text(text, at, wanted) {
        let behind = crate::text::after_chars(text, at + 1, wanted, 0)->Some_0;
        assert(behind == end);
        assert forall|k: int| 0 <= k < bytes.len() implies #[trigger] bytes[k] as u32
            == wanted[k] as u32 by {
            assert(text[at + 1 + k] == bytes[k]);
        }
    }
}

proof fn lemma_is_string(text: Seq<u8>, at: int, value: Json, wanted: Seq<char>)
    requires
        value.valid(),
        has_at(text, at, value.written()),
    ensures
        crate::text::is_text(text, at, wanted) <==> is_string(value, wanted),
{
    lemma_value_starts(value);
    assert(text[at] == value.written()[0]);
    match value {
        Json::Text(bytes) => {
            lemma_is_text(text, at, bytes, wanted);
        },
        Json::Plain(bytes) => {
            assert(is_plain(bytes[0]));
        },
        _ => {},
    }
}

proof fn lemma_some_text(text: Seq<u8>, ats: Seq<int>, values: Seq<Json>, wanted: Seq<char>)
    requires
        all_at(text, ats, values),
    ensures
        crate::text::some_text(text, ats, wanted) <==> exists|k: int|
            0 <= k < values.len() && is_string(#[trigger] values[k], wanted),
{
    assert forall|k: int| 0 <= k < ats.len() implies (crate::text::is_text(
        text,
        #[trigger] ats[k],
        wanted,
    ) <==> is_string(values[k], wanted)) by {
        assert(values[k].valid());
        lemma_is_string(text, ats[k], values[k], wanted);
    }
    if crate::text::some_text(text, ats, wanted) {
        let k = choose|k: int|
            0 <= k < ats.len() && crate::text::is_text(text, #[trigger] ats[k], wanted);
        assert(is_string(values[k], wanted));
    }
    if exists|k: int| 0 <= k < values.len() && is_string(#[trigger] values[k], wanted) {
        let k = choose|k: int| 0 <= k < values.len() && is_string(#[trigger] values[k], wanted);
        assert(crate::text::is_text(text, ats[k], wanted));
    }
}

proof fn lemma_some_value(text: Seq<u8>, ats: Seq<int>, values: Seq<Json>)
    requires
        all_at(text, ats, values),
    ensures
        crate::text::some_value(text, ats) <==> exists|k: int|
            0 <= k < values.len() && !is_null(#[trigger] values[k]),
{
    assert forall|k: int| 0 <= k < ats.len() implies 0 <= #[trigger] ats[k] < text.len() && (
    text[ats[k]] == NULL_START <==> is_null(values[k])) by {
        assert(values[k].valid());
        lemma_value_starts(values[k]);
        assert(text[ats[k]] == values[k].written()[0]);
    }
    if crate::text::some_value(text, ats) {
        let k = choose|k: int|
            0 <= k < ats.len() && 0 <= #[trigger] ats[k] < text.len() && text[ats[k]] != NULL_START;
        assert(!is_null(values[k]));
    }
    if exists|k: int| 0 <= k < values.len() && !is_null(#[trigger] values[k]) {
        let k = choose|k: int| 0 <= k < values.len() && !is_null(#[trigger] values[k]);
        assert(text[ats[k]] != NULL_START);
    }
}

/// The elements of an array without the white space around them.
pub open spec fn elements_of(values: Seq<(Seq<u8>, Json, Seq<u8>)>) -> Seq<Json> {
    values.map_values(|element: (Seq<u8>, Json, Seq<u8>)| element.1)
}

/// The items of a value that is written in a text.
proof fn lemma_items(text: Seq<u8>, at: int, value: Json)
    requires
        value.valid(),
        has_at(text, at, value.written()),
    ensures
        match value {
            Json::List(values) => all_at(
                text,
                crate::text::items(text, at, OPEN_BRACKET),
                elements_of(values),
            ) && crate::text::items(text, at, OPEN_BRACE).len() == 0,
            Json::Object(members) => members_at(
                text,
                crate::text::items(text, at, OPEN_BRACE),
                members,
            ) && crate::text::items(text, at, OPEN_BRACKET).len() == 0,
            _ => crate::text::items(text, at, OPEN_BRACKET).len() == 0 && crate::text::items(
                text,
                at,
                OPEN_BRACE,
            ).len() == 0,
        },
{
    lemma_value_starts(value);
    assert(text[at] == value.written()[0]);
    match value {
        Json::List(values) => {
            let inner = written_values(values, 0);
            lemma_has_both(text, at, seq![0x5bu8] + inner, seq![0x5du8]);
            lemma_has_both(text, at, seq![0x5bu8], inner);
            assert(text[at + 1 + inner.len()] == seq![0x5du8][0]);
            lemma_values_from(text, at + 1, values, 0);
            let found = crate::text::items(text, at, OPEN_BRACKET);
            let elements = elements_of(values);
            assert forall|k: int| 0 <= k < found.len() implies (#[trigger] elements[k]).valid()
                && has_at(text, found[k], elements[k].written()) by {
                assert(is_blank(values[k].0));
                assert(has_at(
                    text,
                    crate::text::items_from(text, at + 1)[k],
                    values[0 + k].1.written(),
                ));
            }
        },
        Json::Object(members) => {
            let inner = written_members(members, 0);
            lemma_has_both(text, at, seq![0x7bu8] + inner, seq![0x7du8]);
            lemma_has_both(text, at, seq![0x7bu8], inner);
            assert(text[at + 1 + inner.len()] == seq![0x7du8][0]);
            lemma_members_from(text, at + 1, members, 0);
            let found = crate::text::items(text, at, OPEN_BRACE);
            assert forall|k: int| 0 <= k < found.len() implies (#[trigger] members[k]).0.valid()
                && members[k].1.valid() && member_at(
                text,
                found[k],
                members[k].0,
                members[k].1,
            ) by {
                assert(member_at(
                    text,
                    crate::text::items_from(text, at + 1)[k],
                    members[0 + k].0,
                    members[0 + k].1,
                ));
            }
        },
        Json::Plain(bytes) => {
            assert(is_plain(bytes[0]));
        },
        Json::Text(bytes) => {},
    }
}

/// Whether `members` are written at `items`, one at each.
pub open spec fn members_at(
    text: Seq<u8>,
    items: Seq<int>,
    members: Seq<(Key, Json, Seq<u8>)>,
) -> bool {
    &&& items.len() == members.len()
    &&& forall|k: int|
        0 <= k < items.len() ==> (#[trigger] members[k]).0.valid() && members[k].1.valid()
            && member_at(text, items[k], members[k].0, members[k].1)
}

proof fn lemma_named_values(
    text: Seq<u8>,
    items: Seq<int>,
    members: Seq<(Key, Json, Seq<u8>)>,
    name: Seq<char>,
)
    requires
        members_at(text, items, members),
    ensures
        all_at(
            text,
            crate::text::named_values(text, items, name),
            members.filter(|member: (Key, Json, Seq<u8>)| spells(member.0.name, name)).map_values(
                |member: (Key, Json, Seq<u8>)| member.1,
            ),
        ),
    decreases items.len(),
{
    reveal(Seq::filter);
    let named = |member: (Key, Json, Seq<u8>)| spells(member.0.name, name);
    let value = |member: (Key, Json, Seq<u8>)| member.1;
    if items.len() > 0 {
        let n = items.len() - 1;
        assert forall|k: int| 0 <= k < n implies (#[trigger] members.drop_last()[k]).0.valid()
            && members.drop_last()[k].1.valid() && member_at(
            text,
            items.drop_last()[k],
            members.drop_last()[k].0,
            members.drop_last()[k].1,
        ) by {
            assert(members.drop_last()[k] == members[k]);
        }
        lemma_named_values(text, items.drop_last(), members.drop_last(), name);
        let (key, last, _) = members[n];
        assert(members[n].0.valid());
        lemma_is_text(text, items[n], key.name, name);
        let before = members.drop_last().filter(named);
        if spells(key.name, name) {
            assert(members.filter(named) =~= before.push(members[n]));
            assert(members.filter(named).map_values(value) =~= before.map_values(value) + seq![last]);
            assert(all_at(text, seq![crate::text::member_value(text, items[n])], seq![last]));
            lemma_all_at_both(
                text,
                crate::text::named_values(text, items.drop_last(), name),
                before.map_values(value),
                seq![crate::text::member_value(text, items[n])],
                seq![last],
            );
            assert(crate::text::named_values(text, items, name) =~= crate::text::named_values(
                text,
                items.drop_last(),
                name,
            ) + seq![crate::text::member_value(text, items[n])]);
        } else {
            assert(members.filter(named) =~= before);
        }
    }
}

proof fn lemma_field(text: Seq<u8>, at: int, value: Json, name: Seq<char>, index: Option<usize>)
    requires
        value.valid(),
        has_at(text, at, value.written()),
    ensures
        all_at(text, crate::text::field(text, at, name, index), field_of(value, name, index)),
{
    lemma_items(text, at, value);
    match value {
        Json::Object(members) => {
            lemma_named_values(text, crate::text::items(text, at, OPEN_BRACE), members, name);
        },
        Json::List(values) => {
            if index is Some && index->Some_0 < values.len() {
                assert(is_blank(values[index->Some_0 as int].0));
                assert(elements_of(values)[index->Some_0 as int].valid());
            }
        },
        _ => {},
    }
}

proof fn lemma_fields(
    text: Seq<u8>,
    ats: Seq<int>,
    values: Seq<Json>,
    name: Seq<char>,
    index: Option<usize>,
)
    requires
        all_at(text, ats, values),
    ensures
        all_at(text, crate::text::fields(text, ats, name, index), fields_of(values, name, index)),
    decreases ats.len(),
{
    if ats.len() > 0 {
        let n = ats.len() - 1;
        assert forall|k: int| 0 <= k < n implies (#[trigger] values.drop_last()[k]).valid()
            && has_at(text, ats.drop_last()[k], values.drop_last()[k].written()) by {
            assert(values.drop_last()[k] == values[k]);
        }
        lemma_fields(text, ats.drop_last(), values.drop_last(), name, index);
        assert(values[n].valid());
        lemma_field(text, ats[n], values[n], name, index);
        lemma_all_at_both(
            text,
            crate::text::fields(text, ats.drop_last(), name, index),
            fields_of(values.drop_last(), name, index),
            crate::text::field(text, ats[n], name, index),
            field_of(values[n], name, index),
        );
    }
}

proof fn lemma_members(text: Seq<u8>, ats: Seq<int>, values: Seq<Json>)
    requires
        all_at(text, ats, values),
    ensures
        members_at(text, crate::text::members(text, ats), members_of(values)),
    decreases ats.len(),
{
    if ats.len() > 0 {
        let n = ats.len() - 1;
        assert forall|k: int| 0 <= k < n implies (#[trigger] values.drop_last()[k]).valid()
            && has_at(text, ats.drop_last()[k], values.drop_last()[k].written()) by {
            assert(values.drop_last()[k] == values[k]);
        }
        lemma_members(text, ats.drop_last(), values.drop_last());
        assert(values[n].valid());
        lemma_items(text, ats[n], values[n]);
        let before = members_of(values.drop_last());
        let found = crate::text::members(text, ats.drop_last());
        let items = crate::text::items(text, ats[n], OPEN_BRACE);
        let members = match values[n] {
            Json::Object(members) => members,
            _ => Seq::empty(),
        };
        assert(items.len() == members.len());
        assert forall|k: int| 0 <= k < (found + items).len() implies (#[trigger] (before
            + members)[k]).0.valid() && (before + members)[k].1.valid() && member_at(
            text,
            (found + items)[k],
            (before + members)[k].0,
            (before + members)[k].1,
        ) by {
            if k < found.len() {
                assert(before[k].0.valid());
            } else {
                assert(members[k - found.len()].0.valid());
            }
        }
    }
}

proof fn lemma_member_values(text: Seq<u8>, items: Seq<int>, members: Seq<(Key, Json, Seq<u8>)>)
    requires
        members_at(text, items, members),
    ensures
        all_at(
            text,
            items.map_values(|item: int| crate::text::member_value(text, item)),
            members.map_values(|member: (Key, Json, Seq<u8>)| member.1),
        ),
{
    let values = members.map_values(|member: (Key, Json, Seq<u8>)| member.1);
    assert forall|k: int| 0 <= k < items.len() implies (#[trigger] values[k]).valid() && has_at(
        text,
        items.map_values(|item: int| crate::text::member_value(text, item))[k],
        values[k].written(),
    ) by {
        assert(members[k].0.valid());
    }
}

/// Whether `byte` is a letter, a digit or a hyphen.
pub open spec fn is_word_byte(byte: u8) -> bool {
    ||| 0x30 <= byte <= 0x39
    ||| 0x41 <= byte <= 0x5a
    ||| 0x61 <= byte <= 0x7a
    ||| byte == 0x2d
}

/// Whether `name` is the name of a server: letters, digits, hyphens and dots, or
/// what else `ruma` takes for one.
pub open spec fn names_server(name: Seq<u8>) -> bool {
    ||| name.len() > 0 && forall|k: int|
        0 <= k < name.len() ==> is_word_byte(#[trigger] name[k]) || name[k] == 0x2e
    ||| crate::identifiers::server_name_parses(name)
}

/// Whether `bytes` are `mxc://`, the name of a server, a slash and the ID of media,
/// where the slash is the byte `slash`.
pub open spec fn is_media_uri(bytes: Seq<u8>, slash: int) -> bool {
    &&& 6 <= slash < bytes.len()
    &&& spells(bytes.take(6), "mxc://"@)
    &&& bytes[slash] == 0x2f
    &&& forall|k: int| 6 <= k < slash ==> #[trigger] bytes[k] != 0x2f && bytes[k] < 0x80
    &&& names_server(bytes.subrange(6, slash))
    &&& forall|k: int| slash < k < bytes.len() ==> is_word_byte(#[trigger] bytes[k])
}

/// Whether `value` is a media URI with its slash at a multiple of 256 bytes.
pub open spec fn is_long_uri(value: Json) -> bool {
    value matches Json::Text(bytes) && exists|slash: int| #[trigger]
        is_media_uri(bytes, slash) && slash % 256 == 0
}

/// Whether `key` has its first colon at the byte `colon`, 256 or more, and the byte
/// behind the one that the lowest byte of that points to is not the first of a
/// character.
pub open spec fn is_long_key(key: Seq<u8>) -> bool {
    exists|colon: int|
        0 <= colon < key.len() && #[trigger] key[colon] == 0x3a && (forall|k: int|
            0 <= k < colon ==> #[trigger] key[k] != 0x3a) && colon >= 256 && colon % 256 != 0
            && 0x80 <= key[colon % 256 + 1] < 0xc0
}

/// The name of a server in a raw string goes up to the first slash.
proof fn lemma_server_name(text: Seq<u8>, i: int, end: int)
    requires
        0 <= i <= end < text.len(),
        text[end] == QUOTE,
        forall|k: int| i <= k < end ==> #[trigger] text[k] != QUOTE && text[k] != BACKSLASH,
    ensures
        match crate::identifiers::server_name(text, i) {
            Some((name, rest)) => {
                &&& i < rest <= end
                &&& text[rest - 1] == 0x2f
                &&& name == text.subrange(i, rest - 1)
                &&& forall|k: int| i <= k < rest - 1 ==> #[trigger] text[k] != 0x2f && text[k] < 0x80
            },
            None => forall|slash: int|
                i <= slash < end && #[trigger] text[slash] == 0x2f ==> exists|k: int|
                    i <= k < slash && (#[trigger] text[k] == 0x2f || text[k] >= 0x80),
        },
    decreases end - i,
{
    if i < end {
        let unit = crate::text::unit_at(text, i);
        assert(unit.width == 1 && unit.code == text[i] as u32);
        if text[i] != 0x2f && text[i] < 0x80 {
            lemma_server_name(text, i + 1, end);
            match crate::identifiers::server_name(text, i + 1) {
                Some((name, rest)) => {
                    assert(unit.code as u8 == text[i]);
                    assert(seq![text[i]] + text.subrange(i + 1, rest - 1) =~= text.subrange(
                        i,
                        rest - 1,
                    ));
                },
                None => {},
            }
        } else if text[i] == 0x2f {
            assert(text.subrange(i, i) =~= Seq::<u8>::empty());
        } else {
            assert forall|slash: int|
                i <= slash < end && #[trigger] text[slash] == 0x2f implies exists|k: int|
                i <= k < slash && (#[trigger] text[k] == 0x2f || text[k] >= 0x80) by {
                assert(text[i] >= 0x80);
            }
        }
    }
}

proof fn lemma_media_id(text: Seq<u8>, i: int, end: int)
    requires
        0 <= i <= end < text.len(),
        text[end] == QUOTE,
        forall|k: int| i <= k < end ==> #[trigger] text[k] != QUOTE && text[k] != BACKSLASH,
    ensures
        crate::identifiers::is_media_id(text, i) <==> forall|k: int|
            i <= k < end ==> is_word_byte(#[trigger] text[k]),
    decreases end - i,
{
    if i < end {
        let unit = crate::text::unit_at(text, i);
        assert(unit.width == 1 && unit.code == text[i] as u32);
        lemma_media_id(text, i + 1, end);
        if crate::identifiers::is_media_id(text, i) {
            assert forall|k: int| i <= k < end implies is_word_byte(#[trigger] text[k]) by {}
        }
    }
}

proof fn lemma_names_server(name: Seq<u8>)
    ensures
        crate::identifiers::is_server_name(name) <==> names_server(name),
{
    if crate::identifiers::is_host_name(name) {
        assert forall|k: int| 0 <= k < name.len() implies is_word_byte(#[trigger] name[k])
            || name[k] == 0x2e by {}
    }
    if names_server(name) && !crate::identifiers::server_name_parses(name) {
        assert(crate::identifiers::is_host_name(name));
    }
}

/// A string in a text is found to be too long as a URI if it is one.
proof fn lemma_long_uri(text: Seq<u8>, at: int, value: Json)
    requires
        value.valid(),
        has_at(text, at, value.written()),
    ensures
        crate::identifiers::is_oversized_uri(text, at) <==> is_long_uri(value),
{
    reveal_strlit("mxc://");
    lemma_value_starts(value);
    assert(text[at] == value.written()[0]);
    match value {
        Json::Text(bytes) => {
            lemma_text_at(text, at, bytes);
            let start = at + 1;
            let end = start + bytes.len();
            assert forall|k: int| start <= k < end implies #[trigger] text[k] == bytes[k - start]
                && text[k] != QUOTE && text[k] != BACKSLASH by {
                assert(text[at + 1 + (k - start)] == bytes[k - start]);
            }
            lemma_after_chars(text, start, end, "mxc://"@, 0);
            if spells(bytes.take(6), "mxc://"@) && bytes.len() >= 6 {
                assert forall|k: int| start <= k < start + 6 implies #[trigger] text[k] as u32
                    == "mxc://"@[k - start] as u32 by {
                    assert(bytes.take(6)[k - start] == bytes[k - start]);
                }
                assert(crate::text::after_chars(text, start, "mxc://"@, 0) == Some(start + 6));
            }
            if crate::text::after_chars(text, start, "mxc://"@, 0) is Some {
                let name_at = start + 6;
                assert(bytes.len() >= 6);
                assert(spells(bytes.take(6), "mxc://"@)) by {
                    assert forall|k: int| 0 <= k < 6 implies #[trigger] bytes.take(6)[k] as u32
                        == "mxc://"@[k] as u32 by {
                        assert(text[start + k] == bytes[k]);
                    }
                }
                lemma_server_name(text, name_at, end);
                match crate::identifiers::server_name(text, name_at) {
                    Some((name, rest)) => {
                        let slash = rest - 1 - start;
                        assert(name =~= bytes.subrange(6, slash));
                        lemma_names_server(name);
                        lemma_media_id(text, rest, end);
                        assert(bytes[slash] == text[rest - 1]);
                        assert forall|k: int| 6 <= k < slash implies #[trigger] bytes[k] != 0x2f
                            && bytes[k] < 0x80 by {
                            assert(text[start + k] == bytes[k]);
                        }
                        if crate::identifiers::is_media_id(text, rest) {
                            assert forall|k: int| slash < k < bytes.len() implies is_word_byte(
                                #[trigger] bytes[k],
                            ) by {
                                assert(is_word_byte(text[start + k]));
                            }
                        }
                        if crate::identifiers::is_oversized_uri(text, at) {
                            assert(is_media_uri(bytes, slash));
                        }
                        if is_long_uri(value) {
                            let other = choose|other: int| #[trigger]
                                is_media_uri(bytes, other) && other % 256 == 0;
                            assert(other == slash) by {
                                if other < slash {
                                    assert(bytes[other] == 0x2f);
                                } else if slash < other {
                                    assert(bytes[slash] != 0x2f);
                                }
                            }
                            assert forall|k: int| rest <= k < end implies is_word_byte(
                                #[trigger] text[k],
                            ) by {
                                assert(is_word_byte(bytes[k - start]));
                            }
                        }
                    },
                    None => {
                        if is_long_uri(value) {
                            let slash = choose|slash: int| #[trigger]
                                is_media_uri(bytes, slash) && slash % 256 == 0;
                            assert(text[start + slash] == 0x2f);
                            let k = choose|k: int|
                                name_at <= k < start + slash && (#[trigger] text[k] == 0x2f
                                    || text[k] >= 0x80);
                            assert(bytes[k - start] != 0x2f && bytes[k - start] < 0x80);
                        }
                    },
                }
            }
        },
        Json::Plain(bytes) => {
            assert(is_plain(bytes[0]));
        },
        _ => {},
    }
}

proof fn lemma_colon_offset(text: Seq<u8>, i: int, end: int, offset: int)
    requires
        0 <= i <= end < text.len(),
        text[end] == QUOTE,
        forall|k: int| i <= k < end ==> #[trigger] text[k] != QUOTE && text[k] != BACKSLASH,
    ensures
        match crate::identifiers::colon_offset(text, i, offset) {
            Some(colon) => {
                &&& offset <= colon < offset + end - i
                &&& text[i + colon - offset] == COLON
                &&& forall|k: int| i <= k < i + colon - offset ==> #[trigger] text[k] != COLON
            },
            None => forall|k: int| i <= k < end ==> #[trigger] text[k] != COLON,
        },
    decreases end - i,
{
    if i < end {
        let unit = crate::text::unit_at(text, i);
        assert(unit.width == 1 && unit.size == 1 && unit.code == text[i] as u32);
        if text[i] != COLON {
            lemma_colon_offset(text, i + 1, end, offset + 1);
        }
    }
}

proof fn lemma_starts_at(text: Seq<u8>, i: int, end: int, offset: int, target: int)
    requires
        0 <= i <= end < text.len(),
        text[end] == QUOTE,
        forall|k: int| i <= k < end ==> #[trigger] text[k] != QUOTE && text[k] != BACKSLASH,
        offset <= target < offset + end - i,
    ensures
        crate::identifiers::starts_at(text, i, offset, target) <==> !(0x80 <= text[i + target
            - offset] < 0xc0),
    decreases end - i,
{
    let unit = crate::text::unit_at(text, i);
    assert(unit.width == 1 && unit.size == 1);
    if offset < target {
        lemma_starts_at(text, i + 1, end, offset + 1, target);
    }
}

/// The name of a member in a text is found to be too long as a key ID if it is one.
proof fn lemma_long_key(text: Seq<u8>, at: int, key: Seq<u8>)
    requires
        is_raw(key),
        has_at(text, at, seq![0x22u8] + key + seq![0x22u8]),
    ensures
        crate::identifiers::is_oversized_key_id(text, at) <==> is_long_key(key),
{
    lemma_text_at(text, at, key);
    let start = at + 1;
    let end = start + key.len();
    assert forall|k: int| start <= k < end implies #[trigger] text[k] == key[k - start] && text[k]
        != QUOTE && text[k] != BACKSLASH by {
        assert(text[at + 1 + (k - start)] == key[k - start]);
    }
    lemma_colon_offset(text, start, end, 0);
    match crate::identifiers::colon_offset(text, start, 0) {
        Some(colon) => {
            assert(key[colon] == text[start + colon]);
            assert forall|k: int| 0 <= k < colon implies #[trigger] key[k] != 0x3a by {
                assert(text[start + k] == key[k]);
            }
            if colon >= 256 {
                lemma_starts_at(text, start, end, 0, colon % 256 + 1);
            }
            if is_long_key(key) {
                let other = choose|other: int|
                    0 <= other < key.len() && #[trigger] key[other] == 0x3a && (forall|k: int|
                        0 <= k < other ==> #[trigger] key[k] != 0x3a) && other >= 256 && other
                        % 256 != 0 && 0x80 <= key[other % 256 + 1] < 0xc0;
                assert(other == colon) by {
                    if other < colon {
                        assert(key[other] != 0x3a);
                    } else if colon < other {
                        assert(key[colon] != 0x3a);
                    }
                }
            }
        },
        None => {
            if is_long_key(key) {
                let other = choose|other: int| 0 <= other < key.len() && #[trigger] key[other] == 0x3a;
                assert(text[start + other] == key[other]);
            }
        },
    }
}

/// Whether one of `values` is the string `wanted`.
pub open spec fn one_is(values: Seq<Json>, wanted: Seq<char>) -> bool {
    exists|k: int| 0 <= k < values.len() && is_string(#[trigger] values[k], wanted)
}

/// Whether one of `values` is not `null`.
pub open spec fn one_is_set(values: Seq<Json>) -> bool {
    exists|k: int| 0 <= k < values.len() && !is_null(#[trigger] values[k])
}

/// Whether the event `event` is of the type `wanted`.
pub open spec fn has_type(event: Json, wanted: Seq<char>) -> bool {
    one_is(field_of(event, "type"@, None), wanted)
}

/// Whether the event `event` is a state event.
pub open spec fn has_state_key(event: Json) -> bool {
    one_is_set(field_of(event, "state_key"@, None))
}

/// Whether the event `event` has been redacted.
pub open spec fn was_redacted(event: Json) -> bool {
    one_is_set(
        fields_of(field_of(event, "unsigned"@, None), "redacted_because"@, Some(0)),
    )
}

/// The URIs of thumbnails in the metadata `infos`.
pub open spec fn thumbnails_of(infos: Seq<Json>, url: usize, file: usize) -> Seq<Json> {
    fields_of(infos, "thumbnail_url"@, Some(url)) + fields_of(
        fields_of(infos, "thumbnail_file"@, Some(file)),
        "url"@,
        Some(0),
    )
}

/// The URIs of media in the contents `contents` of messages.
pub open spec fn media_of(contents: Seq<Json>) -> Seq<Json> {
    fields_of(contents, "url"@, None) + fields_of(
        fields_of(contents, "file"@, None),
        "url"@,
        Some(0),
    )
}

/// The URIs that messages with the contents `contents` come with.
pub open spec fn message_uris_of(contents: Seq<Json>) -> Seq<Json> {
    let kinds = fields_of(contents, "msgtype"@, None);
    let infos = fields_of(contents, "info"@, None);
    if one_is(kinds, "m.audio"@) {
        media_of(contents)
    } else if one_is(kinds, "m.file"@) {
        media_of(contents) + thumbnails_of(infos, 3, 4)
    } else if one_is(kinds, "m.image"@) {
        media_of(contents) + thumbnails_of(infos, 5, 6)
    } else if one_is(kinds, "m.video"@) {
        media_of(contents) + thumbnails_of(infos, 6, 7)
    } else if one_is(kinds, "m.location"@) {
        thumbnails_of(infos, 0, 1)
    } else {
        Seq::empty()
    }
}

/// The contents of the state event `event`, the one before it among them.
pub open spec fn contents_of(event: Json) -> Seq<Json> {
    field_of(event, "content"@, None) + field_of(event, "prev_content"@, None)
}

/// The URIs that the event `event` comes with, where `ruma` reads one.
pub open spec fn uris_of(event: Json) -> Seq<Json> {
    let content = field_of(event, "content"@, None);
    let contents = contents_of(event);
    if was_redacted(event) {
        Seq::empty()
    } else if has_state_key(event) {
        if has_type(event, "m.room.avatar"@) {
            fields_of(contents, "url"@, Some(1)) + fields_of(
                fields_of(contents, "info"@, Some(0)),
                "thumbnail_url"@,
                Some(5),
            )
        } else if has_type(event, "m.room.member"@) {
            fields_of(contents, "avatar_url"@, Some(0))
        } else {
            Seq::empty()
        }
    } else if has_type(event, "m.room.message"@) {
        message_uris_of(content)
    } else if has_type(event, "m.sticker"@) {
        fields_of(content, "url"@, Some(2)) + thumbnails_of(
            fields_of(content, "info"@, Some(1)),
            5,
            6,
        )
    } else {
        Seq::empty()
    }
}

/// What is signed under which key ID in the event `event`, where `ruma` reads one.
pub open spec fn signatures_of(event: Json) -> Seq<(Key, Json, Seq<u8>)> {
    if !was_redacted(event) && has_state_key(event) && has_type(event, "m.room.member"@) {
        let invites = fields_of(contents_of(event), "third_party_invite"@, Some(4));
        let signed = fields_of(invites, "signed"@, Some(1));
        let servers = members_of(fields_of(signed, "signatures"@, Some(1)));
        members_of(servers.map_values(|server: (Key, Json, Seq<u8>)| server.1))
    } else {
        Seq::empty()
    }
}

proof fn lemma_thumbnails(text: Seq<u8>, ats: Seq<int>, infos: Seq<Json>, url: usize, file: usize)
    requires
        all_at(text, ats, infos),
    ensures
        all_at(
            text,
            crate::identifiers::thumbnail_uris(text, ats, url, file),
            thumbnails_of(infos, url, file),
        ),
{
    lemma_fields(text, ats, infos, "thumbnail_url"@, Some(url));
    lemma_fields(text, ats, infos, "thumbnail_file"@, Some(file));
    let files = fields_of(infos, "thumbnail_file"@, Some(file));
    let found = crate::text::fields(text, ats, "thumbnail_file"@, Some(file));
    lemma_fields(text, found, files, "url"@, Some(0));
    lemma_all_at_both(
        text,
        crate::text::fields(text, ats, "thumbnail_url"@, Some(url)),
        fields_of(infos, "thumbnail_url"@, Some(url)),
        crate::text::fields(text, found, "url"@, Some(0)),
        fields_of(files, "url"@, Some(0)),
    );
}

proof fn lemma_media(text: Seq<u8>, ats: Seq<int>, contents: Seq<Json>)
    requires
        all_at(text, ats, contents),
    ensures
        all_at(text, crate::identifiers::media_uris(text, ats), media_of(contents)),
{
    lemma_fields(text, ats, contents, "url"@, None);
    lemma_fields(text, ats, contents, "file"@, None);
    let files = fields_of(contents, "file"@, None);
    let found = crate::text::fields(text, ats, "file"@, None);
    lemma_fields(text, found, files, "url"@, Some(0));
    lemma_all_at_both(
        text,
        crate::text::fields(text, ats, "url"@, None),
        fields_of(contents, "url"@, None),
        crate::text::fields(text, found, "url"@, Some(0)),
        fields_of(files, "url"@, Some(0)),
    );
}

proof fn lemma_message_uris(text: Seq<u8>, ats: Seq<int>, contents: Seq<Json>)
    requires
        all_at(text, ats, contents),
    ensures
        all_at(text, crate::identifiers::message_uris(text, ats), message_uris_of(contents)),
{
    lemma_fields(text, ats, contents, "msgtype"@, None);
    lemma_fields(text, ats, contents, "info"@, None);
    let kinds = fields_of(contents, "msgtype"@, None);
    let kinds_at = crate::text::fields(text, ats, "msgtype"@, None);
    let infos = fields_of(contents, "info"@, None);
    let infos_at = crate::text::fields(text, ats, "info"@, None);
    lemma_some_text(text, kinds_at, kinds, "m.audio"@);
    lemma_some_text(text, kinds_at, kinds, "m.file"@);
    lemma_some_text(text, kinds_at, kinds, "m.image"@);
    lemma_some_text(text, kinds_at, kinds, "m.video"@);
    lemma_some_text(text, kinds_at, kinds, "m.location"@);
    lemma_media(text, ats, contents);
    let media_at = crate::identifiers::media_uris(text, ats);
    let media = media_of(contents);
    lemma_thumbnails(text, infos_at, infos, 3, 4);
    lemma_thumbnails(text, infos_at, infos, 5, 6);
    lemma_thumbnails(text, infos_at, infos, 6, 7);
    lemma_thumbnails(text, infos_at, infos, 0, 1);
    lemma_all_at_both(
        text,
        media_at,
        media,
        crate::identifiers::thumbnail_uris(text, infos_at, 3, 4),
        thumbnails_of(infos, 3, 4),
    );
    lemma_all_at_both(
        text,
        media_at,
        media,
        crate::identifiers::thumbnail_uris(text, infos_at, 5, 6),
        thumbnails_of(infos, 5, 6),
    );
    lemma_all_at_both(
        text,
        media_at,
        media,
        crate::identifiers::thumbnail_uris(text, infos_at, 6, 7),
        thumbnails_of(infos, 6, 7),
    );
}

/// The members of an event that is written as a text.
proof fn lemma_event_member(
    text: Seq<u8>,
    before: Seq<u8>,
    event: Json,
    after: Seq<u8>,
    name: Seq<char>,
)
    requires
        event.valid(),
        is_blank(before),
        text == before + event.written() + after,
    ensures
        all_at(
            text,
            crate::identifiers::event_member(text, name),
            field_of(event, name, None),
        ),
{
    lemma_value_starts(event);
    let at = before.len() as int;
    assert(has_at(text, 0, before));
    assert forall|k: int| 0 <= k < event.written().len() implies text[at + k]
        == #[trigger] event.written()[k] by {}
    lemma_blank_at(text, 0, before, 0);
    assert(text[at] == event.written()[0]);
    assert(crate::text::skip_space(text, at) == at);
    lemma_field(text, at, event, name, None);
}

proof fn lemma_event(
    text: Seq<u8>,
    before: Seq<u8>,
    event: Json,
    after: Seq<u8>,
    wanted: Seq<char>,
)
    requires
        event.valid(),
        is_blank(before),
        text == before + event.written() + after,
    ensures
        crate::identifiers::is_of_type(text, wanted) <==> has_type(event, wanted),
        crate::identifiers::is_state_event(text) <==> has_state_key(event),
        crate::identifiers::is_redacted(text) <==> was_redacted(event),
        all_at(text, crate::identifiers::state_contents(text), contents_of(event)),
{
    lemma_event_member(text, before, event, after, "type"@);
    lemma_some_text(
        text,
        crate::identifiers::event_member(text, "type"@),
        field_of(event, "type"@, None),
        wanted,
    );
    lemma_event_member(text, before, event, after, "state_key"@);
    lemma_some_value(
        text,
        crate::identifiers::event_member(text, "state_key"@),
        field_of(event, "state_key"@, None),
    );
    lemma_event_member(text, before, event, after, "unsigned"@);
    let unsigned_at = crate::identifiers::event_member(text, "unsigned"@);
    let unsigned = field_of(event, "unsigned"@, None);
    lemma_fields(text, unsigned_at, unsigned, "redacted_because"@, Some(0));
    lemma_some_value(
        text,
        crate::text::fields(text, unsigned_at, "redacted_because"@, Some(0)),
        fields_of(unsigned, "redacted_because"@, Some(0)),
    );
    lemma_event_member(text, before, event, after, "content"@);
    lemma_event_member(text, before, event, after, "prev_content"@);
    lemma_all_at_both(
        text,
        crate::identifiers::event_member(text, "content"@),
        field_of(event, "content"@, None),
        crate::identifiers::event_member(text, "prev_content"@),
        field_of(event, "prev_content"@, None),
    );
}

proof fn lemma_uris(text: Seq<u8>, before: Seq<u8>, event: Json, after: Seq<u8>)
    requires
        event.valid(),
        is_blank(before),
        text == before + event.written() + after,
    ensures
        all_at(text, crate::identifiers::uris(text), uris_of(event)),
{
    lemma_event(text, before, event, after, "m.room.avatar"@);
    lemma_event(text, before, event, after, "m.room.member"@);
    lemma_event(text, before, event, after, "m.room.message"@);
    lemma_event(text, before, event, after, "m.sticker"@);
    lemma_event_member(text, before, event, after, "content"@);
    let content_at = crate::identifiers::event_member(text, "content"@);
    let content = field_of(event, "content"@, None);
    let contents_at = crate::identifiers::state_contents(text);
    let contents = contents_of(event);
    lemma_message_uris(text, content_at, content);
    lemma_fields(text, content_at, content, "url"@, Some(2));
    lemma_fields(text, content_at, content, "info"@, Some(1));
    let infos_at = crate::text::fields(text, content_at, "info"@, Some(1));
    let infos = fields_of(content, "info"@, Some(1));
    lemma_thumbnails(text, infos_at, infos, 5, 6);
    lemma_all_at_both(
        text,
        crate::text::fields(text, content_at, "url"@, Some(2)),
        fields_of(content, "url"@, Some(2)),
        crate::identifiers::thumbnail_uris(text, infos_at, 5, 6),
        thumbnails_of(infos, 5, 6),
    );
    lemma_fields(text, contents_at, contents, "avatar_url"@, Some(0));
    lemma_fields(text, contents_at, contents, "url"@, Some(1));
    lemma_fields(text, contents_at, contents, "info"@, Some(0));
    let avatar_infos_at = crate::text::fields(text, contents_at, "info"@, Some(0));
    let avatar_infos = fields_of(contents, "info"@, Some(0));
    lemma_fields(text, avatar_infos_at, avatar_infos, "thumbnail_url"@, Some(5));
    lemma_all_at_both(
        text,
        crate::text::fields(text, contents_at, "url"@, Some(1)),
        fields_of(contents, "url"@, Some(1)),
        crate::text::fields(text, avatar_infos_at, "thumbnail_url"@, Some(5)),
        fields_of(avatar_infos, "thumbnail_url"@, Some(5)),
    );
}

proof fn lemma_key_ids(text: Seq<u8>, before: Seq<u8>, event: Json, after: Seq<u8>)
    requires
        event.valid(),
        is_blank(before),
        text == before + event.written() + after,
    ensures
        members_at(text, crate::identifiers::key_ids(text), signatures_of(event)),
{
    lemma_event(text, before, event, after, "m.room.member"@);
    let contents_at = crate::identifiers::state_contents(text);
    let contents = contents_of(event);
    lemma_fields(text, contents_at, contents, "third_party_invite"@, Some(4));
    let invites_at = crate::text::fields(text, contents_at, "third_party_invite"@, Some(4));
    let invites = fields_of(contents, "third_party_invite"@, Some(4));
    lemma_fields(text, invites_at, invites, "signed"@, Some(1));
    let signed_at = crate::text::fields(text, invites_at, "signed"@, Some(1));
    let signed = fields_of(invites, "signed"@, Some(1));
    lemma_fields(text, signed_at, signed, "signatures"@, Some(1));
    let signatures_at = crate::text::fields(text, signed_at, "signatures"@, Some(1));
    let signatures = fields_of(signed, "signatures"@, Some(1));
    lemma_members(text, signatures_at, signatures);
    let servers_at = crate::text::members(text, signatures_at);
    let servers = members_of(signatures);
    lemma_member_values(text, servers_at, servers);
    lemma_members(
        text,
        servers_at.map_values(|item: int| crate::text::member_value(text, item)),
        servers.map_values(|server: (Key, Json, Seq<u8>)| server.1),
    );
}

/// An event that is written without escapes, with any white space, has no
/// identifier that is too long if and only if no URI in the places where one is read
/// has its slash at a multiple of 256 bytes, and no key ID of a signature with its
/// colon at 256 bytes or more has the middle of a character right behind the byte that
/// the lowest byte of that position points to.
pub proof fn law_identifiers_fit_where_they_are_read(
    json: Seq<char>,
    before: Seq<u8>,
    event: Json,
    after: Seq<u8>,
)
    requires
        event.valid(),
        is_blank(before),
        vstd::utf8::encode_utf8(json) == before + event.written() + after,
    ensures
        crate::identifiers::identifiers_fit(json) <==> (forall|k: int|
            0 <= k < uris_of(event).len() ==> !is_long_uri(#[trigger] uris_of(event)[k])) && (
        forall|k: int|
            0 <= k < signatures_of(event).len() ==> !is_long_key(
                (#[trigger] signatures_of(event)[k]).0.name,
            )),
{
    let text = vstd::utf8::encode_utf8(json);
    lemma_uris(text, before, event, after);
    lemma_key_ids(text, before, event, after);
    let uris_at = crate::identifiers::uris(text);
    let keys_at = crate::identifiers::key_ids(text);
    assert forall|k: int| 0 <= k < uris_at.len() implies (crate::identifiers::is_oversized_uri(
        text,
        #[trigger] uris_at[k],
    ) <==> is_long_uri(uris_of(event)[k])) by {
        assert(uris_of(event)[k].valid());
        lemma_long_uri(text, uris_at[k], uris_of(event)[k]);
    }
    assert forall|k: int| 0 <= k < keys_at.len() implies (crate::identifiers::is_oversized_key_id(
        text,
        #[trigger] keys_at[k],
    ) <==> is_long_key(signatures_of(event)[k].0.name)) by {
        assert(signatures_of(event)[k].0.valid());
        lemma_long_key(text, keys_at[k], signatures_of(event)[k].0.name);
    }
    if crate::identifiers::identifiers_fit(json) {
        assert forall|k: int| 0 <= k < uris_of(event).len() implies !is_long_uri(
            #[trigger] uris_of(event)[k],
        ) by {
            assert(!crate::identifiers::is_oversized_uri(text, uris_at[k]));
        }
        assert forall|k: int| 0 <= k < signatures_of(event).len() implies !is_long_key(
            (#[trigger] signatures_of(event)[k]).0.name,
        ) by {
            assert(!crate::identifiers::is_oversized_key_id(text, keys_at[k]));
        }
    } else {
        if exists|k: int|
            0 <= k < uris_at.len() && crate::identifiers::is_oversized_uri(
                text,
                #[trigger] uris_at[k],
            ) {
            let k = choose|k: int|
                0 <= k < uris_at.len() && crate::identifiers::is_oversized_uri(
                    text,
                    #[trigger] uris_at[k],
                );
            assert(is_long_uri(uris_of(event)[k]));
        } else {
            let k = choose|k: int|
                0 <= k < keys_at.len() && crate::identifiers::is_oversized_key_id(
                    text,
                    #[trigger] keys_at[k],
                );
            assert(is_long_key(signatures_of(event)[k].0.name));
        }
    }
}

} // verus!
