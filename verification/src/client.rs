//! How requests and responses travel: one line each.
use crate::poll_loop::{is_newline, lines, unfinished};
use crate::seqs::{first_where, lemma_first_where_is};
use crate::text::{trim_newlines, without_trailing};
use vstd::prelude::*;
use vstd::string::*;

verus! {

/// The bytes of a message on the wire: they end in a newline.
pub open spec fn framed(bytes: Seq<u8>) -> Seq<u8> {
    bytes.push(10)
}

/// Ends a message with a newline.
pub fn frame_request(bytes: Vec<u8>) -> (r: Vec<u8>)
    ensures
        r@ == framed(bytes@),
{
    let mut r = bytes;
    r.push(10);
    r
}

/// Takes the message out of a line that was received. An empty line means that
/// the server closed the connection.
pub fn unframe_response(line: &str) -> (r: std::result::Result<&str, String>)
    ensures
        match r {
            Ok(message) => line@.len() > 0 && message@ == without_trailing(line@, '\n'),
            Err(e) => line@.len() == 0 && e@
                == "server closed the connection without sending a response"@,
        },
{
    if line.is_empty() {
        return Err("server closed the connection without sending a response".to_owned());
    }
    Ok(trim_newlines(line))
}

/// The error of a connection that could not be made.
pub fn connect_error(socket_path: &str) -> (r: String)
    ensures
        r@ == "failed to connect to socket "@ + socket_path@,
{
    "failed to connect to socket ".to_owned().concat(socket_path)
}

/// A message without newlines reaches the other side as one line, and nothing of
/// it is left waiting.
pub proof fn messages_arrive_whole(bytes: Seq<u8>)
    requires
        !bytes.contains(10),
    ensures
        lines(framed(bytes)) == seq![framed(bytes)],
        unfinished(framed(bytes)) == Seq::<u8>::empty(),
{
    let sent = framed(bytes);
    let n = bytes.len() as int;
    assert forall|j: int| 0 <= j < n implies !is_newline()(#[trigger] sent[j]) by {
        assert(bytes.contains(bytes[j]));
        assert(sent[j] == bytes[j]);
    }
    lemma_first_where_is(sent, is_newline(), n);
    assert(sent.take(n + 1) =~= sent);
    assert(sent.skip(n + 1) =~= Seq::<u8>::empty());
    assert(first_where(Seq::<u8>::empty(), is_newline()) is None);
    assert(lines(Seq::<u8>::empty()) =~= Seq::<Seq<u8>>::empty());
    assert(unfinished(Seq::<u8>::empty()) =~= Seq::<u8>::empty());
    assert(lines(sent) =~= seq![sent]);
}

/// Reading a response undoes ending it with a newline, where the text itself does
/// not end in one.
pub proof fn responses_are_unwrapped(text: Seq<char>)
    requires
        text.len() > 0 ==> text.last() != '\n',
    ensures
        without_trailing(text.push('\n'), '\n') == text,
{
    assert(text.push('\n').drop_last() =~= text);
    reveal_with_fuel(without_trailing, 2);
}

} // verus!
