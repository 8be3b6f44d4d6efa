//! Slash commands: which one a name stands for, and the replies that need
//! nothing but the command's own options.
use vstd::prelude::*;
use vstd::string::*;

use crate::bot::Bot;
use crate::text::same_text;

verus! {

/// The slash commands that the bot answers.
#[derive(Debug, Clone, Copy, PartialEq, Eq, Structural)]
pub enum SlashCommand {
    Neko,
    Join,
    Leave,
    Speed,
    Freq,
    StartLesson,
    EndLesson,
    StartLongLesson,
    /// A name the bot has no handler for.
    Other,
}

/// The command that `name` stands for.
pub open spec fn command_of(name: Seq<char>) -> SlashCommand {
    if name == "neko"@ {
        SlashCommand::Neko
    } else if name == "cw-join"@ {
        SlashCommand::Join
    } else if name == "cw-leave"@ {
        SlashCommand::Leave
    } else if name == "cw-speed"@ {
        SlashCommand::Speed
    } else if name == "cw-freq"@ {
        SlashCommand::Freq
    } else if name == "cw-start-lesson"@ {
        SlashCommand::StartLesson
    } else if name == "cw-end-lesson"@ {
        SlashCommand::EndLesson
    } else if name == "cw-start-long-lesson"@ {
        SlashCommand::StartLongLesson
    } else {
        SlashCommand::Other
    }
}

/// The command that `name` stands for.
pub fn parse_command(name: &str) -> (r: SlashCommand)
    ensures
        r == command_of(name@),
{
    if same_text(name, "neko") {
        SlashCommand::Neko
    } else if same_text(name, "cw-join") {
        SlashCommand::Join
    } else if same_text(name, "cw-leave") {
        SlashCommand::Leave
    } else if same_text(name, "cw-speed") {
        SlashCommand::Speed
    } else if same_text(name, "cw-freq") {
        SlashCommand::Freq
    } else if same_text(name, "cw-start-lesson") {
        SlashCommand::StartLesson
    } else if same_text(name, "cw-end-lesson") {
        SlashCommand::EndLesson
    } else if same_text(name, "cw-start-long-lesson") {
        SlashCommand::StartLongLesson
    } else {
        SlashCommand::Other
    }
}

/// Whether the answer to a command is deferred: joining and leaving a voice
/// channel can take longer than an answer may.
pub fn needs_defer(cmd: SlashCommand) -> (r: bool)
    ensures
        r == (cmd == SlashCommand::Join || cmd == SlashCommand::Leave),
{
    match cmd {
        SlashCommand::Join | SlashCommand::Leave => true,
        _ => false,
    }
}

/// What the bot does with the text a command handler produced.
pub enum ReplyAction {
    /// Nothing: the handler produced an empty text.
    Nothing,
    /// Edit the deferred answer to this text.
    Edit(String),
    /// Answer with this text.
    Create(String),
}

/// The text a handler's outcome is shown as: its reply, or its error's text.
pub open spec fn outcome_text(outcome: Result<String, String>) -> Seq<char> {
    match outcome {
        Ok(t) => t@,
        Err(e) => e@,
    }
}

/// What the bot does with a handler's outcome for `cmd`: nothing for an
/// empty text, else edit the deferred answer or answer afresh.
pub open spec fn reply_action_ok(cmd: SlashCommand, outcome: Result<String, String>, r: ReplyAction) -> bool {
    let text = outcome_text(outcome);
    match r {
        ReplyAction::Nothing => text.len() == 0,
        ReplyAction::Edit(t) => text.len() > 0 && (cmd == SlashCommand::Join || cmd
            == SlashCommand::Leave) && t@ == text,
        ReplyAction::Create(t) => text.len() > 0 && !(cmd == SlashCommand::Join || cmd
            == SlashCommand::Leave) && t@ == text,
    }
}

/// What the bot does with a handler's outcome for `cmd`: an error is shown
/// by its text; an empty text is not sent; the answer to a deferred command
/// is edited; any other command is answered.
pub fn reply_for(cmd: SlashCommand, outcome: Result<String, String>) -> (r: ReplyAction)
    ensures
        reply_action_ok(cmd, outcome, r),
{
    let ghost o = outcome;
    let content = match outcome {
        Ok(t) => t,
        Err(e) => e,
    };
    assert(content@ == outcome_text(o));
    if content.as_str().is_empty() {
        ReplyAction::Nothing
    } else if needs_defer(cmd) {
        ReplyAction::Edit(content)
    } else {
        ReplyAction::Create(content)
    }
}

/// The reply to a command the bot has no handler for.
pub fn not_implemented_reply() -> (r: String)
    ensures
        r@ == "not implemented :("@,
{
    String::from_str("not implemented :(")
}

/// `s` written `n` times.
pub open spec fn repeated(s: Seq<char>, n: nat) -> Seq<char>
    decreases n,
{
    if n == 0 {
        seq![]
    } else {
        repeated(s, (n - 1) as nat) + s
    }
}

/// `s` written `n` times is `n` copies of `s`, one after another: it is
/// `n * s.len()` long, and its `j`-th copy is `s`.
pub proof fn law_repeated_copies(s: Seq<char>, n: nat)
    ensures
        repeated(s, n).len() == n * s.len(),
        forall|j: int| 0 <= j < n ==> #[trigger] repeated(s, n).subrange(j * s.len(), (j + 1) * s.len()) == s,
    decreases n,
{
    if n == 0 {
        assert(0 * s.len() == 0) by (nonlinear_arith);
    } else {
        law_repeated_copies(s, (n - 1) as nat);
        let p = repeated(s, (n - 1) as nat);
        assert(repeated(s, n) == p + s);
        assert((n - 1) * s.len() + s.len() == n * s.len()) by (nonlinear_arith)
            requires
                n > 0,
        ;
        assert forall|j: int| 0 <= j < n implies #[trigger] repeated(s, n).subrange(
            j * s.len(),
            (j + 1) * s.len(),
        ) == s by {
            let lo = j * s.len();
            let hi = (j + 1) * s.len();
            assert(hi == lo + s.len()) by (nonlinear_arith)
                requires
                    lo == j * s.len(),
                    hi == (j + 1) * s.len(),
            ;
            if j < n - 1 {
                assert(hi <= (n - 1) * s.len()) by (nonlinear_arith)
                    requires
                        j < n - 1,
                        hi == (j + 1) * s.len(),
                ;
                assert(0 <= lo) by (nonlinear_arith)
                    requires
                        0 <= j,
                        lo == j * s.len(),
                ;
                assert(repeated(s, n).subrange(lo, hi) =~= p.subrange(lo, hi));
            } else {
                assert(j == n - 1);
                assert(lo == (n - 1) * s.len());
                assert(repeated(s, n).subrange(lo, hi) =~= s);
            }
        }
    }
}

/// How many times the cat mews: the `count` option, 1 where it is missing,
/// kept within 1 to 32.
pub open spec fn mew_count(count: Option<i64>) -> nat {
    let c = match count {
        Some(c) => c,
        None => 1,
    };
    if c < 1 {
        1
    } else if c > 32 {
        32
    } else {
        c as nat
    }
}

impl<L> Bot<L> {
    /// The reply to `/neko`: a mew, `count` times.
    pub fn run_command_neko(&self, count: Option<i64>) -> (r: String)
        ensures
            r@ == repeated("にゃーん"@, mew_count(count)),
            count is Some && 1 <= count->0 <= 32 ==> r@ == repeated("にゃーん"@, count->0 as nat),
            count is Some && count->0 > 32 ==> r@ == repeated("にゃーん"@, 32),
            count is Some && count->0 < 1 ==> r@ == "にゃーん"@,
            count is None ==> r@ == "にゃーん"@,
    {
        let c: i64 = match count {
            Some(c) => c,
            None => 1,
        };
        let n: i64 = if c < 1 {
            1
        } else if c > 32 {
            32
        } else {
            c
        };
        let mut r = String::new();
        let mut k: i64 = 0;
        while k < n
            invariant
                0 <= k <= n,
                n == mew_count(count),
                n == (match count {
                    Some(c) => if c < 1 {
                        1
                    } else if c > 32 {
                        32
                    } else {
                        c
                    },
                    None => 1,
                }),
                r@ == repeated("にゃーん"@, k as nat),
            decreases n - k,
        {
            r.append("にゃーん");
            k += 1;
        }
        proof {
            assert(repeated("にゃーん"@, 0) == Seq::<char>::empty());
            assert(Seq::<char>::empty() + "にゃーん"@ =~= "にゃーん"@);
        }
        r
    }
}

} // verus!
