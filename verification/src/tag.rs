//! The tags that a user puts on rooms.
use vstd::prelude::*;

verus! {

/// What a tag carries besides its name, carried through as it is.
#[verifier::external_type_specification]
#[verifier::external_body]
pub struct ExTagInfo(ruma::events::tag::TagInfo);

/// Whether `name` is the name of a tag that a user made up: it starts with `u.`.
pub open spec fn is_user_tag_name(name: Seq<char>) -> bool {
    name.len() >= 2 && name[0] == 'u' && name[1] == '.'
}

/// A name without the prefix `u.` was given to a tag of a user.
#[derive(Clone, Copy, Debug, PartialEq, Eq)]
pub struct InvalidUserTagName;

/// The name of a tag that a user made up.
#[derive(Debug)]
pub struct UserTagName {
    name: String,
}

impl UserTagName {
    #[verifier::type_invariant]
    spec fn has_prefix(self) -> bool {
        is_user_tag_name(self.name@)
    }

    /// The name, with its prefix.
    pub closed spec fn spec_name(self) -> Seq<char> {
        self.name@
    }

    /// The tag named `name`, which has to start with `u.`.
    pub fn new(name: &str) -> (res: Result<UserTagName, InvalidUserTagName>)
        ensures
            res is Ok <==> is_user_tag_name(name@),
            res matches Ok(tag) ==> tag.spec_name() == name@,
    {
        if parses_as_user_tag_name(name) {
            Ok(UserTagName { name: name.to_owned() })
        } else {
            Err(InvalidUserTagName)
        }
    }

    /// The name, with its prefix.
    pub fn as_str(&self) -> (res: &str)
        ensures
            res@ == self.spec_name(),
            is_user_tag_name(res@),
    {
        proof {
            use_type_invariant(self);
        }
        self.name.as_str()
    }
}

/// The name of a tag.
#[derive(Debug)]
pub enum TagName {
    /// The favorite rooms of the user.
    Favorite,
    /// Rooms that matter less than others.
    LowPriority,
    /// Rooms in which the server addresses its users.
    ServerNotice,
    /// A tag that the user made up.
    User(UserTagName),
    /// Any other tag, under its name.
    Custom(String),
}

impl TagName {
    /// The name under which the server knows the tag.
    pub open spec fn spec_name(self) -> Seq<char> {
        match self {
            TagName::Favorite => "m.favourite"@,
            TagName::LowPriority => "m.lowpriority"@,
            TagName::ServerNotice => "m.server_notice"@,
            TagName::User(tag) => tag.spec_name(),
            TagName::Custom(name) => name@,
        }
    }
}

/// Asks `ruma::events::tag::UserTagName::from_str` whether `name` is the name of
/// a tag that a user made up.
///
/// Claimed of it: it accepts the names that start with `u.`, and no others.
#[verifier::external_body]
fn parses_as_user_tag_name(name: &str) -> (res: bool)
    ensures
        res == is_user_tag_name(name@),
{
    let parsed: Result<ruma::events::tag::UserTagName, _> = name.parse();
    parsed.is_ok()
}

/// The name under which the server knows `tag`, from
/// `<ruma::events::tag::TagName as AsRef<str>>::as_ref`.
///
/// Claimed of it: the three tags that Matrix itself defines have the names
/// `m.favourite`, `m.lowpriority` and `m.server_notice`, and every other tag the
/// name that it was made with.
#[verifier::external_body]
pub(crate) fn tag_name(tag: &TagName) -> (res: String)
    ensures
        res@ == tag.spec_name(),
{
    let outside = match tag {
        TagName::Favorite => ruma::events::tag::TagName::Favorite,
        TagName::LowPriority => ruma::events::tag::TagName::LowPriority,
        TagName::ServerNotice => ruma::events::tag::TagName::ServerNotice,
        TagName::User(tag) => ruma::events::tag::TagName::from(tag.name.as_str()),
        TagName::Custom(name) => ruma::events::tag::TagName::from(name.as_str()),
    };
    outside.as_ref().to_owned()
}

} // verus!
