//! The queue message as the dispatcher and the handlers see it.
use vstd::prelude::*;

verus! {

/// One attribute that the queue itself keeps of a message, such as the
/// number of times it was received.
#[derive(Clone, Debug)]
pub struct Attribute {
    /// Name of the attribute, as the queue writes it.
    pub name: String,
    /// Its value.
    pub value: String,
}

/// Mathematical value of an [`Attribute`].
pub struct AttributeView {
    pub name: Seq<char>,
    pub value: Seq<char>,
}

impl DeepView for Attribute {
    type V = AttributeView;

    open spec fn deep_view(&self) -> AttributeView {
        AttributeView { name: self.name@, value: self.value@ }
    }
}

/// One attribute that the sender gave a message.
#[derive(Clone, Debug)]
pub struct MessageAttribute {
    /// Name of the attribute.
    pub name: String,
    /// Type of the value: `String`, `Number`, `Binary`, or one of these
    /// with a label of the sender's.
    pub data_type: String,
    /// The value, where it is text.
    pub string_value: Option<String>,
    /// The value, where it is bytes.
    pub binary_value: Option<Vec<u8>>,
    /// The values, where they are a list of texts.
    pub string_list_values: Option<Vec<String>>,
    /// The values, where they are a list of byte strings.
    pub binary_list_values: Option<Vec<Vec<u8>>>,
}

/// Mathematical value of a [`MessageAttribute`].
pub struct MessageAttributeView {
    pub name: Seq<char>,
    pub data_type: Seq<char>,
    pub string_value: Option<Seq<char>>,
    pub binary_value: Option<Seq<u8>>,
    pub string_list_values: Option<Seq<Seq<char>>>,
    pub binary_list_values: Option<Seq<Seq<u8>>>,
}

impl DeepView for MessageAttribute {
    type V = MessageAttributeView;

    open spec fn deep_view(&self) -> MessageAttributeView {
        MessageAttributeView {
            name: self.name@,
            data_type: self.data_type@,
            string_value: self.string_value.deep_view(),
            binary_value: self.binary_value.deep_view(),
            string_list_values: self.string_list_values.deep_view(),
            binary_list_values: self.binary_list_values.deep_view(),
        }
    }
}

/// One delivery of a queue message. The dispatcher reads the receipt; the
/// rest is for the handlers.
#[derive(Clone, Debug)]
pub struct Message {
    /// Identifier of the message, the same across redeliveries.
    pub message_id: Option<String>,
    /// Identifier of this delivery. Without it the delivery can neither be
    /// deleted nor have its visibility changed.
    pub receipt_handle: Option<String>,
    /// MD5 digest of the body.
    pub md5_of_body: Option<String>,
    /// Payload, opaque to the dispatcher.
    pub body: Option<String>,
    /// The queue's own attributes of the message, where they were asked
    /// for.
    pub attributes: Option<Vec<Attribute>>,
    /// MD5 digest of the sender's attributes.
    pub md5_of_message_attributes: Option<String>,
    /// The sender's attributes, where they were asked for.
    pub message_attributes: Option<Vec<MessageAttribute>>,
}

/// Mathematical value of a [`Message`].
pub struct MessageView {
    pub message_id: Option<Seq<char>>,
    pub receipt_handle: Option<Seq<char>>,
    pub md5_of_body: Option<Seq<char>>,
    pub body: Option<Seq<char>>,
    pub attributes: Option<Seq<AttributeView>>,
    pub md5_of_message_attributes: Option<Seq<char>>,
    pub message_attributes: Option<Seq<MessageAttributeView>>,
}

impl View for Message {
    type V = MessageView;

    open spec fn view(&self) -> MessageView {
        MessageView {
            message_id: self.message_id.deep_view(),
            receipt_handle: self.receipt_handle.deep_view(),
            md5_of_body: self.md5_of_body.deep_view(),
            body: self.body.deep_view(),
            attributes: self.attributes.deep_view(),
            md5_of_message_attributes: self.md5_of_message_attributes.deep_view(),
            message_attributes: self.message_attributes.deep_view(),
        }
    }
}

impl Message {
    /// A message with the given identifier, receipt and body, and nothing
    /// else.
    pub fn new(
        message_id: Option<String>,
        receipt_handle: Option<String>,
        body: Option<String>,
    ) -> (m: Message)
        ensures
            m == (Message {
                message_id,
                receipt_handle,
                md5_of_body: None,
                body,
                attributes: None,
                md5_of_message_attributes: None,
                message_attributes: None,
            }),
    {
        Message {
            message_id,
            receipt_handle,
            md5_of_body: None,
            body,
            attributes: None,
            md5_of_message_attributes: None,
            message_attributes: None,
        }
    }

    /// Whether the delivery carries a receipt, that is whether it can be
    /// worked on at all.
    pub fn has_receipt(&self) -> (b: bool)
        ensures
            b == self@.receipt_handle.is_some(),
    {
        self.receipt_handle.is_some()
    }
}

} // verus!
