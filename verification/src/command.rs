//! The commands of the chat room: a client turns a line that starts with a
//! backslash into a one-byte command code and its arguments.

use vstd::prelude::*;
use vstd::utf8::{encode_scalar, encode_utf8};
use crate::text::{
    chars_of, joined, lemma_encode_concat, lemma_encode_one, push_text, split_words, text_is,
    word_views, words,
};

verus! {

/// Ask for the list of users in the room.
pub const CMD_LIST: u8 = 0x01;

/// Whisper to one user.
pub const CMD_TO: u8 = 0x02;

/// Speak to everyone but one user.
pub const CMD_EXCEPT: u8 = 0x03;

/// Remove a user from the room.
pub const CMD_BAN: u8 = 0x04;

/// Measure the round trip to the server.
pub const CMD_PING: u8 = 0x05;

/// Whether `cmd` is one of the five command codes.
pub open spec fn valid_command(cmd: u8) -> bool {
    1 <= cmd <= 5
}

/// Tells whether the first byte of a line is a command code.
pub fn is_valid_command(cmd: u8) -> (r: bool)
    ensures
        r == valid_command(cmd),
{
    cmd == CMD_LIST || cmd == CMD_TO || cmd == CMD_EXCEPT || cmd == CMD_BAN || cmd == CMD_PING
}

/// A command with a target and a text: the code, the target, one space, and
/// the words of the text with one space between each two.
pub open spec fn addressed_bytes(code: u8, ws: Seq<Seq<char>>) -> Option<Seq<u8>> {
    if ws.len() < 2 {
        None
    } else {
        Some(seq![code] + encode_utf8(ws[1]) + seq![0x20u8] + encode_utf8(joined(ws.skip(2))))
    }
}

/// The bytes that a command line is sent as. The first word names the
/// command. `\list` and `\ping` stand alone, and what follows them is
/// ignored. `\ban` takes a target. `\to` and `\except` take a target and a
/// text. A line without words, an unknown command and a missing target give
/// `None`.
pub open spec fn command_bytes(line: Seq<char>) -> Option<Seq<u8>> {
    let ws = words(line);
    if ws.len() == 0 {
        None
    } else if ws[0] == "\\list"@ {
        Some(seq![CMD_LIST])
    } else if ws[0] == "\\ping"@ {
        Some(seq![CMD_PING])
    } else if ws[0] == "\\ban"@ {
        if ws.len() < 2 {
            None
        } else {
            Some(seq![CMD_BAN] + encode_utf8(ws[1]))
        }
    } else if ws[0] == "\\to"@ {
        addressed_bytes(CMD_TO, ws)
    } else if ws[0] == "\\except"@ {
        addressed_bytes(CMD_EXCEPT, ws)
    } else {
        None
    }
}

/// A space is one byte of UTF-8.
proof fn lemma_space_byte()
    ensures
        encode_utf8(seq![' ']) == seq![0x20u8],
{
    lemma_encode_one(' ');
    assert(0x20u32 & 0x7f == 0x20u32) by (bit_vector);
    assert(encode_scalar(' ' as u32) =~= seq![0x20u8]);
}

/// Appends the words from the third on, with one space between each two.
fn push_joined(out: &mut Vec<u8>, ws: &Vec<Vec<char>>)
    requires
        ws.len() >= 2,
    ensures
        final(out)@ == old(out)@ + encode_utf8(joined(word_views(ws@).skip(2))),
{
    let ghost views = word_views(ws@);
    let mut k: usize = 2;
    assert(views.subrange(2, 2) =~= Seq::<Seq<char>>::empty());
    assert(old(out)@ + encode_utf8(Seq::<char>::empty()) =~= old(out)@);
    while k < ws.len()
        invariant
            2 <= k <= ws.len(),
            views == word_views(ws@),
            out@ == old(out)@ + encode_utf8(joined(views.subrange(2, k as int))),
        decreases ws.len() - k,
    {
        let ghost done = views.subrange(2, k as int);
        let ghost next = views.subrange(2, k + 1);
        proof {
            assert(next.drop_last() =~= done);
            assert(next.last() == ws@[k as int]@);
        }
        if k > 2 {
            out.push(0x20);
            proof {
                lemma_space_byte();
                lemma_encode_concat(joined(done) + seq![' '], ws@[k as int]@);
                lemma_encode_concat(joined(done), seq![' ']);
                assert(old(out)@ + encode_utf8(joined(done)) + seq![0x20u8] + encode_utf8(
                    ws@[k as int]@,
                ) =~= old(out)@ + (encode_utf8(joined(done)) + seq![0x20u8] + encode_utf8(
                    ws@[k as int]@,
                )));
            }
        } else {
            proof {
                assert(old(out)@ + encode_utf8(Seq::<char>::empty()) + encode_utf8(ws@[k as int]@)
                    =~= old(out)@ + encode_utf8(ws@[k as int]@));
            }
        }
        push_text(out, &ws[k]);
        k += 1;
    }
    assert(views.subrange(2, k as int) =~= views.skip(2));
}

/// Encodes a command that takes a target and a text.
fn addressed(code: u8, ws: &Vec<Vec<char>>) -> (r: Option<Vec<u8>>)
    ensures
        match r {
            Some(bytes) => addressed_bytes(code, word_views(ws@)) == Some(bytes@),
            None => addressed_bytes(code, word_views(ws@)) is None,
        },
{
    if ws.len() < 2 {
        return None;
    }
    let mut msg: Vec<u8> = Vec::new();
    msg.push(code);
    push_text(&mut msg, &ws[1]);
    msg.push(0x20);
    push_joined(&mut msg, ws);
    assert(msg@ =~= seq![code] + encode_utf8(word_views(ws@)[1]) + seq![0x20u8] + encode_utf8(
        joined(word_views(ws@).skip(2)),
    ));
    Some(msg)
}

/// Encodes a command line for the server, or gives `None` for a line that is
/// no command.
pub fn encode_command(input: &str) -> (r: Option<Vec<u8>>)
    ensures
        match r {
            Some(bytes) => command_bytes(input@) == Some(bytes@),
            None => command_bytes(input@) is None,
        },
{
    let chars = chars_of(input);
    let ws = split_words(&chars);
    if ws.len() == 0 {
        return None;
    }
    let command = &ws[0];
    assert(word_views(ws@)[0] == command@);
    if text_is(command, "\\list") {
        let mut msg: Vec<u8> = Vec::new();
        msg.push(CMD_LIST);
        assert(msg@ =~= seq![CMD_LIST]);
        Some(msg)
    } else if text_is(command, "\\ping") {
        let mut msg: Vec<u8> = Vec::new();
        msg.push(CMD_PING);
        assert(msg@ =~= seq![CMD_PING]);
        Some(msg)
    } else if text_is(command, "\\ban") {
        if ws.len() < 2 {
            None
        } else {
            let mut msg: Vec<u8> = Vec::new();
            msg.push(CMD_BAN);
            push_text(&mut msg, &ws[1]);
            assert(msg@ =~= seq![CMD_BAN] + encode_utf8(word_views(ws@)[1]));
            Some(msg)
        }
    } else if text_is(command, "\\to") {
        addressed(CMD_TO, &ws)
    } else if text_is(command, "\\except") {
        addressed(CMD_EXCEPT, &ws)
    } else {
        None
    }
}

} // verus!
