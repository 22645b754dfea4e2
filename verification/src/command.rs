//! The command line that a handler runs for a message.
//!
//! The first token names the program, the others are its arguments. Two
//! tokens stand for parts of the message and are replaced only where they
//! are the whole token: `{}.messageId` by the message's identifier and
//! `{}.body` by its body. Where the message lacks the part, the token gives
//! no argument.
use crate::message::{Message, MessageView};
use vstd::prelude::*;

verus! {

/// The token that stands for the message's identifier.
pub open spec fn id_token() -> Seq<char> {
    "{}.messageId"@
}

/// The token that stands for the message's body.
pub open spec fn body_token() -> Seq<char> {
    "{}.body"@
}

/// A program and the arguments to run it with.
#[derive(Debug)]
pub struct Invocation {
    /// Path of the program.
    pub program: String,
    /// Its arguments, in order.
    pub args: Vec<String>,
}

/// Mathematical value of an [`Invocation`].
pub struct InvocationView {
    pub program: Seq<char>,
    pub args: Seq<Seq<char>>,
}

impl DeepView for Invocation {
    type V = InvocationView;

    open spec fn deep_view(&self) -> InvocationView {
        InvocationView { program: self.program@, args: self.args.deep_view() }
    }
}

/// The arguments that one token gives for `message`: none or one.
pub open spec fn expand_token(token: Seq<char>, message: MessageView) -> Seq<Seq<char>> {
    if token == id_token() {
        match message.message_id {
            Some(id) => seq![id],
            None => Seq::empty(),
        }
    } else if token == body_token() {
        match message.body {
            Some(body) => seq![body],
            None => Seq::empty(),
        }
    } else {
        seq![token]
    }
}

/// The arguments that `tokens` give for `message`, in order.
pub open spec fn expand_tokens(tokens: Seq<Seq<char>>, message: MessageView) -> Seq<Seq<char>>
    decreases tokens.len(),
{
    if tokens.len() == 0 {
        Seq::empty()
    } else {
        expand_tokens(tokens.drop_last(), message) + expand_token(tokens.last(), message)
    }
}

/// What `exec` says to run for `message`: nothing if `exec` is empty, else
/// its first token with the arguments that the others give.
pub open spec fn invocation_of(
    exec: Seq<Seq<char>>,
    message: MessageView,
) -> Option<InvocationView> {
    if exec.len() == 0 {
        None
    } else {
        Some(
            InvocationView {
                program: exec[0],
                args: expand_tokens(exec.subrange(1, exec.len() as int), message),
            },
        )
    }
}

/// The command line to run for `message`.
pub fn substitute(exec: &Vec<String>, message: &Message) -> (invocation: Option<Invocation>)
    ensures
        invocation.deep_view() == invocation_of(exec.deep_view(), message@),
{
    if exec.len() == 0 {
        return None;
    }
    let for_id = String::from_str("{}.messageId");
    let for_body = String::from_str("{}.body");
    let ghost tokens = exec.deep_view().subrange(1, exec.len() as int);
    let mut args: Vec<String> = Vec::new();
    let mut i: usize = 1;
    assert(tokens.take(0) =~= Seq::<Seq<char>>::empty());
    assert(args.deep_view() =~= expand_tokens(tokens.take(0), message@));
    while i < exec.len()
        invariant
            1 <= i <= exec.len(),
            tokens == exec.deep_view().subrange(1, exec.len() as int),
            for_id@ == id_token(),
            for_body@ == body_token(),
            args.deep_view() == expand_tokens(tokens.take(i - 1), message@),
        decreases exec.len() - i,
    {
        let token = &exec[i];
        let ghost held = args.deep_view();
        proof {
            assert(tokens.take(i as int).drop_last() =~= tokens.take(i - 1));
            assert(tokens.take(i as int).last() == token@);
        }
        if *token == for_id {
            match &message.message_id {
                Some(id) => {
                    args.push(id.clone());
                    assert(args.deep_view() =~= held + seq![id@]);
                },
                None => {
                    assert(args.deep_view() =~= held + Seq::<Seq<char>>::empty());
                },
            }
        } else if *token == for_body {
            match &message.body {
                Some(body) => {
                    args.push(body.clone());
                    assert(args.deep_view() =~= held + seq![body@]);
                },
                None => {
                    assert(args.deep_view() =~= held + Seq::<Seq<char>>::empty());
                },
            }
        } else {
            args.push(token.clone());
            assert(args.deep_view() =~= held + seq![token@]);
        }
        i += 1;
    }
    assert(tokens.take(i - 1) =~= tokens);
    assert(exec.deep_view()[0] == exec[0]@);
    Some(Invocation { program: exec[0].clone(), args })
}

} // verus!
