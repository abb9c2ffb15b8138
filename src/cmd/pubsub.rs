//! Publish and subscribe commands, and the items that a subscription pushes.
use vstd::prelude::*;
use vstd::string::StringSliceAdditionalSpecFns;

use super::{array3, bulk_views, lemma_words3, words, Command, IntOutputCommand};
use crate::codec::{same_bytes, BulkString, Request, Response};
use crate::errors::CommandError;
use crate::resp::Frame;

verus! {

broadcast use vstd::seq::group_seq_axioms;

/// Commands whose answers come as subscription items.
pub trait PubSubCommand {}

/// An item that the server pushes to a subscribed connection.
#[derive(Debug, PartialEq, Eq)]
pub enum SubscribeItem {
    /// A subscription to this channel or pattern was confirmed.
    Subscribed(Vec<u8>),
    /// A subscription to this channel or pattern was removed.
    UnSubscribed(Vec<u8>),
    /// A message published on `channel`; `pattern` is the pattern that
    /// matched it, for a pattern subscription.
    Message { pattern: Option<Vec<u8>>, channel: Vec<u8>, payload: Vec<u8> },
}

pub open spec fn subscribe_word(t: Seq<u8>) -> bool {
    t == "subscribe".spec_bytes() || t == "ssubscribe".spec_bytes() || t == "psubscribe".spec_bytes()
}

pub open spec fn unsubscribe_word(t: Seq<u8>) -> bool {
    t == "unsubscribe".spec_bytes() || t == "sunsubscribe".spec_bytes() || t
        == "punsubscribe".spec_bytes()
}

pub open spec fn message_word(t: Seq<u8>) -> bool {
    t == "message".spec_bytes() || t == "smessage".spec_bytes() || t == "pmessage".spec_bytes()
}

/// How a pushed frame is read. An array of three elements is the type word,
/// the channel and the payload; an array of four has the pattern after the
/// type word. The type word, the pattern and the channel must be bulk
/// strings and the payload a bulk string or an integer (for confirmations,
/// the count of subscriptions); the first element that is not gives the
/// error. A message needs a bulk payload.
pub open spec fn subscribe_reads_as(val: Response, r: Result<SubscribeItem, CommandError>) -> bool {
    match val {
        Response::Array(v) => {
            let n = v@.len();
            let ci: int = if n == 4 {
                2
            } else {
                1
            };
            if n != 3 && n != 4 {
                r matches Err(CommandError::Output(_, e)) && e == val
            } else if !(v@[0] is Bytes) {
                r matches Err(CommandError::Output(_, e)) && e == v@[0]
            } else if n == 4 && !(v@[1] is Bytes) {
                r matches Err(CommandError::Output(_, e)) && e == v@[1]
            } else if !(v@[ci] is Bytes) {
                r matches Err(CommandError::Output(_, e)) && e == v@[ci]
            } else if !(v@[ci + 1] is Bytes || v@[ci + 1] is Integer) {
                r matches Err(CommandError::Output(_, e)) && e == v@[ci + 1]
            } else {
                let t = v@[0]->Bytes_0;
                let channel = v@[ci]->Bytes_0;
                if subscribe_word(t@) {
                    r == Ok::<SubscribeItem, CommandError>(SubscribeItem::Subscribed(channel))
                } else if unsubscribe_word(t@) {
                    r == Ok::<SubscribeItem, CommandError>(SubscribeItem::UnSubscribed(channel))
                } else if message_word(t@) {
                    if v@[ci + 1] is Bytes {
                        r == Ok::<SubscribeItem, CommandError>(
                            SubscribeItem::Message {
                                pattern: if n == 4 {
                                    Some(v@[1]->Bytes_0)
                                } else {
                                    None
                                },
                                channel,
                                payload: v@[ci + 1]->Bytes_0,
                            },
                        )
                    } else {
                        r matches Err(CommandError::Output(_, e)) && e == Response::Nil
                    }
                } else {
                    r matches Err(CommandError::Output(_, e)) && e == v@[0]
                }
            }
        },
        _ => r matches Err(CommandError::Output(_, e)) && e == val,
    }
}

fn is_word(t: &Vec<u8>, a: &str, b: &str, c: &str) -> (r: bool)
    ensures
        r == (t@ == a.spec_bytes() || t@ == b.spec_bytes() || t@ == c.spec_bytes()),
{
    same_bytes(t.as_slice(), a.as_bytes()) || same_bytes(t.as_slice(), b.as_bytes()) || same_bytes(
        t.as_slice(),
        c.as_bytes(),
    )
}

impl SubscribeItem {
    /// Reads a frame that the server pushed to a subscribed connection.
    pub fn from_response(val: Response) -> (r: Result<SubscribeItem, CommandError>)
        ensures
            subscribe_reads_as(val, r),
    {
        match val {
            Response::Array(ary) => {
                let n = ary.len();
                if n != 3 && n != 4 {
                    return Err(
                        CommandError::Output("Array needs to be 3 or 4 elements", Response::Array(ary)),
                    );
                }
                let ghost items = ary@;
                let mut ary = ary;
                let mtype = match ary.remove(0) {
                    Response::Bytes(b) => b,
                    other => return Err(CommandError::Output("Not a bytes object", other)),
                };
                let pattern = if n == 4 {
                    match ary.remove(0) {
                        Response::Bytes(b) => Some(b),
                        other => return Err(CommandError::Output("Not a bytes object", other)),
                    }
                } else {
                    None
                };
                let channel = match ary.remove(0) {
                    Response::Bytes(b) => b,
                    other => return Err(CommandError::Output("Not a bytes object", other)),
                };
                let payload = match ary.remove(0) {
                    Response::Bytes(b) => Some(b),
                    Response::Integer(_) => None,
                    other => return Err(
                        CommandError::Output("Not a bytes object or integer", other),
                    ),
                };
                if is_word(&mtype, "subscribe", "ssubscribe", "psubscribe") {
                    Ok(SubscribeItem::Subscribed(channel))
                } else if is_word(&mtype, "unsubscribe", "sunsubscribe", "punsubscribe") {
                    Ok(SubscribeItem::UnSubscribed(channel))
                } else if is_word(&mtype, "message", "smessage", "pmessage") {
                    match payload {
                        Some(payload) => Ok(SubscribeItem::Message { pattern, channel, payload }),
                        None => Err(
                            CommandError::Output(
                                "Subscription message payload is not bytes",
                                Response::Nil,
                            ),
                        ),
                    }
                } else {
                    Err(CommandError::Output("Subscription message type unknown", Response::Bytes(mtype)))
                }
            },
            _ => Err(CommandError::Output("Unexpected value", val)),
        }
    }
}

/// A command of one word followed by channels; without channels it is the
/// word alone.
pub open spec fn with_channels(name: Seq<u8>, channels: Seq<Seq<u8>>) -> Frame {
    if channels.len() == 0 {
        Frame::Bulk(name)
    } else {
        words(seq![name] + channels)
    }
}

fn channel_request(name: &'static str, channels: Vec<BulkString>) -> (r: Request)
    ensures
        r@ == with_channels(name.spec_bytes(), bulk_views(channels@)),
{
    let ghost all = bulk_views(channels@);
    let ghost total = channels@.len();
    let mut req = Request::from_static(name);
    let mut rest = channels;
    while rest.len() > 0
        invariant
            total == channels@.len(),
            all == bulk_views(channels@),
            rest@.len() <= total,
            forall|m: int| 0 <= m < rest@.len() ==> #[trigger] rest@[m] == channels@[total - rest@.len() + m],
            req@ == with_channels(name.spec_bytes(), all.take(total - rest@.len())),
        decreases rest@.len(),
    {
        let ghost done = total - rest@.len();
        let ch = rest.remove(0);
        let ghost before = req@;
        req = req.add(Request::BulkString(ch));
        proof {
            let f = |w: Seq<u8>| Frame::Bulk(w);
            let name_b = name.spec_bytes();
            assert(all.take(done).push(all[done]) =~= all.take(done + 1));
            assert((seq![name_b] + all.take(done + 1)).map_values(f) =~= (seq![name_b] + all.take(
                done,
            )).map_values(f).push(Frame::Bulk(all[done])));
            if done == 0 {
                assert(seq![name_b] + all.take(1) =~= seq![name_b, all[0]]);
                assert(seq![name_b, all[0]].map_values(f) =~= seq![Frame::Bulk(name_b), Frame::Bulk(all[0])]);
            }
        }
    }
    assert(all.take(total as int) =~= all);
    req
}

/// PUBLISH: sends `message` to `channel`; the answer is how many clients received it.
#[allow(non_snake_case)]
pub fn Publish(channel: BulkString, message: BulkString) -> (r: IntOutputCommand)
    ensures
        r.spec_request() == words(seq!["PUBLISH".spec_bytes(), channel@, message@]),
{
    let ghost (c, m) = (channel@, message@);
    let req = array3(
        Request::from_static("PUBLISH"),
        Request::BulkString(channel),
        Request::BulkString(message),
    );
    proof {
        lemma_words3("PUBLISH".spec_bytes(), c, m);
    }
    IntOutputCommand(req)
}

/// SPUBLISH: sends `message` to the shard channel `channel`.
#[allow(non_snake_case)]
pub fn SPublish(channel: BulkString, message: BulkString) -> (r: IntOutputCommand)
    ensures
        r.spec_request() == words(seq!["SPUBLISH".spec_bytes(), channel@, message@]),
{
    let ghost (c, m) = (channel@, message@);
    let req = array3(
        Request::from_static("SPUBLISH"),
        Request::BulkString(channel),
        Request::BulkString(message),
    );
    proof {
        lemma_words3("SPUBLISH".spec_bytes(), c, m);
    }
    IntOutputCommand(req)
}

/// SUBSCRIBE to channels.
#[allow(non_snake_case)]
pub fn Subscribe(channels: Vec<BulkString>) -> (r: SubscribeOutputCommand)
    ensures
        r.spec_request() == with_channels("SUBSCRIBE".spec_bytes(), bulk_views(channels@)),
{
    SubscribeOutputCommand(channel_request("SUBSCRIBE", channels))
}

/// SSUBSCRIBE to shard channels.
#[allow(non_snake_case)]
pub fn SSubscribe(channels: Vec<BulkString>) -> (r: SubscribeOutputCommand)
    ensures
        r.spec_request() == with_channels("SSUBSCRIBE".spec_bytes(), bulk_views(channels@)),
{
    SubscribeOutputCommand(channel_request("SSUBSCRIBE", channels))
}

/// PSUBSCRIBE to patterns.
#[allow(non_snake_case)]
pub fn PSubscribe(channels: Vec<BulkString>) -> (r: SubscribeOutputCommand)
    ensures
        r.spec_request() == with_channels("PSUBSCRIBE".spec_bytes(), bulk_views(channels@)),
{
    SubscribeOutputCommand(channel_request("PSUBSCRIBE", channels))
}

/// The channels of an unsubscribe command: none means all.
pub open spec fn optional_channels(channels: Option<Vec<BulkString>>) -> Seq<Seq<u8>> {
    match channels {
        Some(v) => bulk_views(v@),
        None => Seq::empty(),
    }
}

fn optional_channel_request(name: &'static str, channels: Option<Vec<BulkString>>) -> (r: Request)
    ensures
        r@ == with_channels(name.spec_bytes(), optional_channels(channels)),
{
    match channels {
        Some(v) => channel_request(name, v),
        None => Request::from_static(name),
    }
}

/// UNSUBSCRIBE from channels, or from all of them.
#[allow(non_snake_case)]
pub fn UnSubscribe(channels: Option<Vec<BulkString>>) -> (r: UnSubscribeOutputCommand)
    ensures
        r.spec_request() == with_channels("UNSUBSCRIBE".spec_bytes(), optional_channels(channels)),
{
    UnSubscribeOutputCommand(optional_channel_request("UNSUBSCRIBE", channels))
}

/// SUNSUBSCRIBE from shard channels, or from all of them.
#[allow(non_snake_case)]
pub fn SUnSubscribe(channels: Option<Vec<BulkString>>) -> (r: UnSubscribeOutputCommand)
    ensures
        r.spec_request() == with_channels("SUNSUBSCRIBE".spec_bytes(), optional_channels(channels)),
{
    UnSubscribeOutputCommand(optional_channel_request("SUNSUBSCRIBE", channels))
}

/// PUNSUBSCRIBE from patterns, or from all of them.
#[allow(non_snake_case)]
pub fn PUnSubscribe(channels: Option<Vec<BulkString>>) -> (r: UnSubscribeOutputCommand)
    ensures
        r.spec_request() == with_channels("PUNSUBSCRIBE".spec_bytes(), optional_channels(channels)),
{
    UnSubscribeOutputCommand(optional_channel_request("PUNSUBSCRIBE", channels))
}

/// A subscribe command; its answers are subscription items.
pub struct SubscribeOutputCommand(pub Request);

impl Command for SubscribeOutputCommand {
    type Output = SubscribeItem;

    open spec fn spec_request(&self) -> Frame {
        self.0@
    }

    open spec fn reads_as(val: Response, r: Result<SubscribeItem, CommandError>) -> bool {
        subscribe_reads_as(val, r)
    }

    fn to_request(self) -> (r: Request) {
        self.0
    }

    fn to_output(val: Response) -> (r: Result<SubscribeItem, CommandError>) {
        SubscribeItem::from_response(val)
    }
}

/// An unsubscribe command; its answers are subscription items.
pub struct UnSubscribeOutputCommand(pub Request);

impl Command for UnSubscribeOutputCommand {
    type Output = SubscribeItem;

    open spec fn spec_request(&self) -> Frame {
        self.0@
    }

    open spec fn reads_as(val: Response, r: Result<SubscribeItem, CommandError>) -> bool {
        subscribe_reads_as(val, r)
    }

    fn to_request(self) -> (r: Request) {
        self.0
    }

    fn to_output(val: Response) -> (r: Result<SubscribeItem, CommandError>) {
        SubscribeItem::from_response(val)
    }
}

impl PubSubCommand for SubscribeOutputCommand {}

impl PubSubCommand for UnSubscribeOutputCommand {}

} // verus!
