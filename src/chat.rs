use vstd::prelude::*;
use crate::lines::strings_view;
use crate::text::{trim_text, trimmed};

verus! {

/// What the interactive loop does with one line of input.
#[derive(Debug)]
pub enum InputAction {
    /// Blank input: prompt again.
    Skip,
    /// `quit` or `exit`: leave the loop.
    Quit,
    /// Anything else: run a turn with this text.
    Send(String),
}

pub open spec fn is_exit_word(t: Seq<char>) -> bool {
    t == "quit"@ || t == "exit"@
}

/// Decides what a trimmed line of input asks for; the exit words match exactly.
pub fn classify_trimmed(t: &str) -> (r: InputAction)
    ensures
        t@.len() == 0 ==> r is Skip,
        t@.len() != 0 && is_exit_word(t@) ==> r is Quit,
        t@.len() != 0 && !is_exit_word(t@) ==> (r is Send && r->Send_0@ == t@),
{
    if t.is_empty() {
        return InputAction::Skip;
    }
    let s = t.to_owned();
    let quit = "quit".to_owned();
    let exit = "exit".to_owned();
    if s == quit || s == exit {
        InputAction::Quit
    } else {
        InputAction::Send(s)
    }
}

/// Decides what one line of console input asks for, once trimmed.
pub fn classify_input(line: &str) -> (r: InputAction)
    ensures
        trimmed(line@).len() == 0 ==> r is Skip,
        trimmed(line@).len() != 0 && is_exit_word(trimmed(line@)) ==> r is Quit,
        trimmed(line@).len() != 0 && !is_exit_word(trimmed(line@)) ==> (r is Send && r->Send_0@
            == trimmed(line@)),
{
    let t = trim_text(line);
    classify_trimmed(t.as_str())
}

/// The reply that the direct-model demo shows, token by token.
pub open spec fn demo_reply() -> Seq<Seq<char>> {
    seq![
        "This"@,
        " would"@,
        " be"@,
        " generated"@,
        " directly"@,
        " from"@,
        " the"@,
        " GGUF"@,
        " model"@,
        " file"@,
        "!"@,
    ]
}

/// A chat session against a local model file, which answers with a fixed demo reply.
pub struct CandleChat {
    model_path: String,
}

impl CandleChat {
    pub closed spec fn path(&self) -> Seq<char> {
        self.model_path@
    }

    pub fn new(model_path: &str) -> (r: CandleChat)
        ensures
            r.path() == model_path@,
    {
        CandleChat { model_path: model_path.to_owned() }
    }

    pub fn model_path(&self) -> (r: &str)
        ensures
            r@ == self.path(),
    {
        self.model_path.as_str()
    }

    /// The tokens of the reply to any prompt, in the order they are shown.
    pub fn response_tokens(&self) -> (r: Vec<String>)
        ensures
            strings_view(r@) == demo_reply(),
    {
        let words: [&str; 11] = [
            "This",
            " would",
            " be",
            " generated",
            " directly",
            " from",
            " the",
            " GGUF",
            " model",
            " file",
            "!",
        ];
        let mut r: Vec<String> = Vec::new();
        let mut i: usize = 0;
        while i < 11
            invariant
                0 <= i <= 11,
                words@.len() == 11,
                forall|k: int| 0 <= k < 11 ==> #[trigger] words@[k]@ == demo_reply()[k],
                strings_view(r@) == demo_reply().take(i as int),
            decreases 11 - i,
        {
            let ghost before = r@;
            let w = words[i].to_owned();
            r.push(w);
            proof {
                assert(w@ == demo_reply()[i as int]);
                assert(strings_view(r@) =~= strings_view(before).push(w@));
                assert(strings_view(r@) =~= demo_reply().take(i as int + 1));
            }
            i = i + 1;
        }
        proof {
            assert(demo_reply().take(11) =~= demo_reply());
        }
        r
    }
}

} // verus!
