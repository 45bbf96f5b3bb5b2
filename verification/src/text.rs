//! The kinds of data and of text messages in revision 4 of the protocol.
//!
//! Revision 4 sends metadata as text and values as binary frames. The types here are
//! what the text messages carry; turning them into text and back is left to whoever
//! owns the transport.

use crate::topic::TopicFlags;
use vstd::prelude::*;

verus! {

/// The kind of a text message.
#[derive(Clone, Copy, Debug, PartialEq, Eq, Structural)]
pub enum MessageType {
    /// A client asks to publish values under a key.
    PublishReq,
    /// A client stops publishing under a key.
    PublishRel,
    /// A client sets or clears flags of a topic.
    SetFlags,
    /// The server announces a key.
    Announce,
    /// The server announces that a key is gone.
    Unannounce,
    /// A client asks for the current values of some keys.
    GetValues,
    /// A client subscribes to the changes of some keys.
    Subscribe,
    /// A client ends a subscription.
    Unsubscribe,
}

/// The kinds of data in revision 4.
#[derive(Clone, Copy, Debug, PartialEq, Eq, Structural)]
pub enum DataType {
    Boolean,
    Raw,
    RPC,
    String,
    Int,
    Float,
    Double,
    BooleanArray,
    StringArray,
    IntArray,
    FloatArray,
    DoubleArray,
}

impl DataType {
    /// The number that stands for the kind in a binary frame.
    pub open spec fn code(self) -> u8 {
        match self {
            DataType::Boolean => 0,
            DataType::Double => 1,
            DataType::Int => 2,
            DataType::Float => 3,
            DataType::String => 4,
            DataType::Raw => 5,
            DataType::RPC => 6,
            DataType::BooleanArray => 16,
            DataType::DoubleArray => 17,
            DataType::IntArray => 18,
            DataType::FloatArray => 19,
            DataType::StringArray => 20,
        }
    }

    /// The kind that a number stands for, if any.
    pub open spec fn of_code(code: u64) -> Option<DataType> {
        if code == 0 {
            Some(DataType::Boolean)
        } else if code == 1 {
            Some(DataType::Double)
        } else if code == 2 {
            Some(DataType::Int)
        } else if code == 3 {
            Some(DataType::Float)
        } else if code == 4 {
            Some(DataType::String)
        } else if code == 5 {
            Some(DataType::Raw)
        } else if code == 6 {
            Some(DataType::RPC)
        } else if code == 16 {
            Some(DataType::BooleanArray)
        } else if code == 17 {
            Some(DataType::DoubleArray)
        } else if code == 18 {
            Some(DataType::IntArray)
        } else if code == 19 {
            Some(DataType::FloatArray)
        } else if code == 20 {
            Some(DataType::StringArray)
        } else {
            None
        }
    }

    pub fn into(self) -> (c: u8)
        ensures
            c == self.code(),
            Self::of_code(c as u64) == Some(self),
    {
        match self {
            DataType::Boolean => 0,
            DataType::Double => 1,
            DataType::Int => 2,
            DataType::Float => 3,
            DataType::String => 4,
            DataType::Raw => 5,
            DataType::RPC => 6,
            DataType::BooleanArray => 16,
            DataType::DoubleArray => 17,
            DataType::IntArray => 18,
            DataType::FloatArray => 19,
            DataType::StringArray => 20,
        }
    }

    pub fn from_code(code: u64) -> (r: Option<DataType>)
        ensures
            r == Self::of_code(code),
    {
        match code {
            0 => Some(DataType::Boolean),
            1 => Some(DataType::Double),
            2 => Some(DataType::Int),
            3 => Some(DataType::Float),
            4 => Some(DataType::String),
            5 => Some(DataType::Raw),
            6 => Some(DataType::RPC),
            16 => Some(DataType::BooleanArray),
            17 => Some(DataType::DoubleArray),
            18 => Some(DataType::IntArray),
            19 => Some(DataType::FloatArray),
            20 => Some(DataType::StringArray),
            _ => None,
        }
    }
}

/// The server announces a key and the id under which its values will come.
#[derive(Clone, Debug, PartialEq, Eq)]
pub struct Announce {
    pub name: String,
    pub id: i32,
    pub _type: DataType,
    pub flags: TopicFlags,
}

/// The server announces that a key is gone.
#[derive(Clone, Debug, PartialEq, Eq)]
pub struct Unannounce {
    pub name: String,
    pub id: i32,
}

/// What the server's words about a key are, as mathematics.
pub enum TextModel {
    Announce { name: Seq<char>, id: i32, _type: DataType, flags: TopicFlags },
    Unannounce { name: Seq<char>, id: i32 },
}

impl View for Announce {
    type V = TextModel;

    open spec fn view(&self) -> TextModel {
        TextModel::Announce { name: self.name@, id: self.id, _type: self._type, flags: self.flags }
    }
}

impl View for Unannounce {
    type V = TextModel;

    open spec fn view(&self) -> TextModel {
        TextModel::Unannounce { name: self.name@, id: self.id }
    }
}

/// A client asks to publish values of a kind under a key.
#[derive(Clone, Debug, PartialEq, Eq)]
pub struct PublishReq {
    pub name: String,
    pub _type: DataType,
}

/// A client stops publishing under a key.
#[derive(Clone, Debug, PartialEq, Eq)]
pub struct PublishRel {
    pub name: String,
}

/// A client asks to add and to remove flags of a topic.
#[derive(Clone, Debug, PartialEq, Eq)]
pub struct SetFlags {
    pub name: String,
    pub add: Vec<String>,
    pub remove: Vec<String>,
}

/// A client asks for the current values under some ids.
#[derive(Clone, Debug, PartialEq, Eq)]
pub struct GetValues {
    pub ids: Vec<i32>,
}

/// How a subscriber wants its updates. The period is the bit pattern of a double, in
/// seconds.
#[derive(Clone, Copy, Debug, PartialEq, Eq, Structural)]
pub struct SubscriptionOptions {
    pub immediate: bool,
    pub periodic: u64,
    pub logging: bool,
}

/// A client subscribes to the keys with some prefixes.
#[derive(Clone, Debug, PartialEq, Eq)]
pub struct Subscribe {
    pub prefixes: Vec<String>,
    pub subuid: u32,
    pub options: Option<SubscriptionOptions>,
}

/// A client ends a subscription.
#[derive(Clone, Copy, Debug, PartialEq, Eq, Structural)]
pub struct Unsubscribe {
    pub subuid: u32,
}

/// A text message, by its kind.
#[derive(Clone, Debug, PartialEq, Eq)]
pub enum MessageValue {
    PublishReq(PublishReq),
    PublishRel(PublishRel),
    SetFlags(SetFlags),
    Announce(Announce),
    Unannounce(Unannounce),
    GetValues(GetValues),
    Subscribe(Subscribe),
    Unsubscribe(Unsubscribe),
}

impl MessageValue {
    /// The kind of the message.
    pub fn message_type(&self) -> (t: MessageType)
        ensures
            t == match self {
                MessageValue::PublishReq(_) => MessageType::PublishReq,
                MessageValue::PublishRel(_) => MessageType::PublishRel,
                MessageValue::SetFlags(_) => MessageType::SetFlags,
                MessageValue::Announce(_) => MessageType::Announce,
                MessageValue::Unannounce(_) => MessageType::Unannounce,
                MessageValue::GetValues(_) => MessageType::GetValues,
                MessageValue::Subscribe(_) => MessageType::Subscribe,
                MessageValue::Unsubscribe(_) => MessageType::Unsubscribe,
            },
    {
        match self {
            MessageValue::PublishReq(_) => MessageType::PublishReq,
            MessageValue::PublishRel(_) => MessageType::PublishRel,
            MessageValue::SetFlags(_) => MessageType::SetFlags,
            MessageValue::Announce(_) => MessageType::Announce,
            MessageValue::Unannounce(_) => MessageType::Unannounce,
            MessageValue::GetValues(_) => MessageType::GetValues,
            MessageValue::Subscribe(_) => MessageType::Subscribe,
            MessageValue::Unsubscribe(_) => MessageType::Unsubscribe,
        }
    }
}

} // verus!
