use vstd::prelude::*;

verus! {

/// What a multipart message is, mathematically: its frames in order.
pub type MessageView = Seq<Seq<u8>>;

/// The frames of a message, each by its bytes.
pub open spec fn message_view(frames: Seq<Vec<u8>>) -> MessageView {
    frames.map_values(|f: Vec<u8>| f@)
}

/// A run of messages, each by its frames.
pub open spec fn messages_view(messages: Seq<Vec<Vec<u8>>>) -> Seq<MessageView> {
    messages.map_values(|m: Vec<Vec<u8>>| message_view(m@))
}

/// Copies a frame byte for byte.
pub fn copy_frame(frame: &Vec<u8>) -> (copy: Vec<u8>)
    ensures
        copy@ == frame@,
{
    let mut copy: Vec<u8> = Vec::with_capacity(frame.len());
    let mut i: usize = 0;
    while i < frame.len()
        invariant
            i <= frame.len(),
            copy@ == frame@.take(i as int),
        decreases frame.len() - i,
    {
        copy.push(frame[i]);
        i += 1;
        assert(copy@ =~= frame@.take(i as int));
    }
    assert(frame@.take(frame.len() as int) =~= frame@);
    copy
}

} // verus!
