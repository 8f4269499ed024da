//! The decisions behind the operations that joined, invited and left Matrix
//! rooms share.
//!
//! Nothing in here performs I/O. An operation is started by a method of
//! [`Common`](common::Common), which says what has to be done first (a request
//! to send, a store to read, a lock to take), and is carried on by handing the
//! outcome of that work to the value or method that follows it.
pub mod common;
pub mod devices;
pub mod error;
pub mod identifiers;
pub mod json;
pub mod laws;
pub mod locks;
pub mod media;
pub mod members;
pub mod messages;
pub mod options;
pub mod request;
pub mod tag;
pub mod text;
pub mod trees;
pub mod values;

pub use common::{Common, EventWork};
pub use devices::DevicesCall;
pub use error::{HttpError, RoomError};
pub use locks::MembersRequestLocks;
pub use media::{
    GetMediaContent, MediaFormat, MediaRequest, MediaThumbnailSize, MediaType, ThumbnailMethod,
};
pub use members::{MemberSelection, MembersCall, MembersQuery, MembersRequest};
pub use messages::{Messages, MessagesCall, MessagesResponse};
pub use options::MessagesOptions;
pub use request::{
    CreateTagRequest, DeleteTagRequest, Direction, GetMemberEventsRequest,
    GetMessageEventsRequest, GetRoomEventRequest, JoinRoomRequest, LeaveRoomRequest,
    StateEventQuery, StateEventsQuery, UserIdsQuery,
};
pub use tag::{InvalidUserTagName, TagName, UserTagName};
pub use values::{
    BaseRoom, Client, Device, HistoryVisibility, Raw, RoomEvent, RoomMember, RoomType, Step, UInt,
};
