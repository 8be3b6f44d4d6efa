//! The calls the bot takes part in: for each guild, the text channel it
//! answers in and the mode it is in.
use std::collections::HashMap;

use vstd::prelude::*;
use vstd::string::*;

use crate::lesson_long::LessonLongModeState;

verus! {

broadcast use vstd::std_specs::hash::group_hash_axioms;

/// Why a request about a call was refused.
#[derive(Debug, Clone, Copy, PartialEq, Eq, Structural)]
pub enum BotError {
    /// The bot takes no part in a call of this guild.
    NotInCall,
    /// The bot already takes part in a call of this guild.
    AlreadyInCall,
}

impl BotError {
    /// The message shown to the user.
    pub fn message(&self) -> (r: String)
        ensures
            r@ == self.message_spec(),
    {
        match self {
            BotError::NotInCall => String::from_str("not in call"),
            BotError::AlreadyInCall => String::from_str("already in call"),
        }
    }

    pub open spec fn message_spec(&self) -> Seq<char> {
        match self {
            BotError::NotInCall => "not in call"@,
            BotError::AlreadyInCall => "already in call"@,
        }
    }
}

/// What the bot does in a call: nothing in particular, a callsign lesson
/// (whose state, of type `L`, the caller keeps), or a long lesson.
pub enum BotStateMode<L> {
    Normal,
    Lesson(L),
    LessonLong(LessonLongModeState),
}

/// What ending a mode may report: nothing for the normal mode, whatever
/// `end_lesson` gives for a callsign lesson, and a fixed line for a long
/// lesson.
pub open spec fn discard_outcome<L, F: Fn(&L) -> Option<String>>(
    mode: BotStateMode<L>,
    end_lesson: F,
    out: Option<String>,
) -> bool {
    match mode {
        BotStateMode::Normal => out is None,
        BotStateMode::Lesson(s) => call_ensures(end_lesson, (&s,), out),
        BotStateMode::LessonLong(_) => out matches Some(t) && t@ == "Long lesson ended"@,
    }
}

impl<L> BotStateMode<L> {
    /// Ends the mode and returns what it reports; `end_lesson` ends a
    /// callsign lesson.
    pub fn discard<F: Fn(&L) -> Option<String>>(&self, end_lesson: &F) -> (r: Option<String>)
        requires
            forall|s: &L| #[trigger] call_requires(*end_lesson, (s,)),
        ensures
            discard_outcome(*self, *end_lesson, r),
    {
        match self {
            BotStateMode::Normal => None,
            BotStateMode::Lesson(s) => end_lesson(s),
            BotStateMode::LessonLong(s) => crate::lesson_long::end(s).ok(),
        }
    }
}

/// The bot's state in one call.
pub struct BotState<L> {
    /// The text channel that the bot reads and answers in.
    pub txt_ch: u64,
    pub mode: BotStateMode<L>,
}

/// The calls the bot takes part in, by guild.
pub struct Bot<L> {
    states: HashMap<u64, BotState<L>>,
}

/// The calls after `add_call_state(guild_id, ch)`.
pub open spec fn added<L>(calls: Map<u64, BotState<L>>, guild_id: u64, ch: u64) -> Map<
    u64,
    BotState<L>,
> {
    if calls.contains_key(guild_id) {
        calls
    } else {
        calls.insert(guild_id, BotState { txt_ch: ch, mode: BotStateMode::Normal })
    }
}

/// The calls after `switch_mode(guild_id, mode, ..)`.
pub open spec fn switched<L>(
    calls: Map<u64, BotState<L>>,
    guild_id: u64,
    mode: BotStateMode<L>,
) -> Map<u64, BotState<L>> {
    if calls.contains_key(guild_id) {
        calls.insert(guild_id, BotState { txt_ch: calls[guild_id].txt_ch, mode })
    } else {
        calls
    }
}

/// The text channel of the call in `guild_id`.
pub open spec fn txt_ch_of<L>(calls: Map<u64, BotState<L>>, guild_id: u64) -> Result<
    u64,
    BotError,
> {
    if calls.contains_key(guild_id) {
        Ok(calls[guild_id].txt_ch)
    } else {
        Err(BotError::NotInCall)
    }
}

/// The text that a mode ends with, as the reply to a switch shows it.
pub open spec fn shown_outcome(out: Option<String>) -> Seq<char> {
    match out {
        Some(t) => t@,
        None => seq![],
    }
}

/// Whether the bot handles a message: one from a person, in a guild where it
/// is in a call, in that call's text channel.
pub open spec fn message_is_handled<L>(
    calls: Map<u64, BotState<L>>,
    author_is_bot: bool,
    guild_id: Option<u64>,
    channel_id: u64,
) -> bool {
    &&& !author_is_bot
    &&& guild_id is Some
    &&& calls.contains_key(guild_id->0)
    &&& calls[guild_id->0].txt_ch == channel_id
}

impl<L> Bot<L> {
    /// The calls, by guild.
    pub closed spec fn calls(&self) -> Map<u64, BotState<L>> {
        self.states@
    }

    /// A bot in no call.
    pub fn new() -> (b: Self)
        ensures
            b.calls() == Map::<u64, BotState<L>>::empty(),
    {
        Bot { states: HashMap::new() }
    }

    /// Records that the bot joined a call in `guild_id` and answers in the
    /// text channel `ch`; refused where it is already in a call there.
    pub fn add_call_state(&mut self, guild_id: u64, ch: u64) -> (r: Result<(), BotError>)
        ensures
            final(self).calls() == added(old(self).calls(), guild_id, ch),
            r is Err <==> old(self).calls().contains_key(guild_id),
            r matches Err(e) ==> e == BotError::AlreadyInCall,
    {
        if self.states.contains_key(&guild_id) {
            return Err(BotError::AlreadyInCall);
        }
        self.states.insert(guild_id, BotState { txt_ch: ch, mode: BotStateMode::Normal });
        Ok(())
    }

    /// Puts the call in `guild_id` in `mode` and ends the mode it was in;
    /// returns what that mode reported on ending, or an empty text.
    pub fn switch_mode<F: Fn(&L) -> Option<String>>(
        &mut self,
        guild_id: u64,
        mode: BotStateMode<L>,
        end_lesson: &F,
    ) -> (r: Result<String, BotError>)
        requires
            forall|s: &L| #[trigger] call_requires(*end_lesson, (s,)),
        ensures
            final(self).calls() == switched(old(self).calls(), guild_id, mode),
            r is Err <==> !old(self).calls().contains_key(guild_id),
            r matches Err(e) ==> e == BotError::NotInCall,
            r matches Ok(s) ==> exists|out: Option<String>|
                discard_outcome(old(self).calls()[guild_id].mode, *end_lesson, out) && s@
                    == shown_outcome(out),
    {
        match self.states.remove(&guild_id) {
            None => Err(BotError::NotInCall),
            Some(st) => {
                let ghost calls0 = old(self).calls();
                self.states.insert(guild_id, BotState { txt_ch: st.txt_ch, mode });
                proof {
                    assert(self.states@ =~= switched(calls0, guild_id, mode));
                }
                let out = st.mode.discard(end_lesson);
                let ghost out_g = out;
                let r = match out {
                    Some(t) => t,
                    None => String::new(),
                };
                proof {
                    assert(st == calls0[guild_id]);
                    assert(discard_outcome(calls0[guild_id].mode, *end_lesson, out_g) && r@
                        == shown_outcome(out_g));
                }
                Ok(r)
            },
        }
    }

    /// The text channel of the call in `guild_id`.
    pub fn get_call_txt_ch(&self, guild_id: u64) -> (r: Result<u64, BotError>)
        ensures
            r == txt_ch_of(self.calls(), guild_id),
    {
        match self.states.get(&guild_id) {
            Some(st) => Ok(st.txt_ch),
            None => Err(BotError::NotInCall),
        }
    }

    /// The mode of the call in `guild_id`.
    pub fn get_call_mode(&self, guild_id: u64) -> (r: Result<&BotStateMode<L>, BotError>)
        ensures
            r is Err <==> !self.calls().contains_key(guild_id),
            r matches Err(e) ==> e == BotError::NotInCall,
            r matches Ok(m) ==> *m == self.calls()[guild_id].mode,
    {
        match self.states.get(&guild_id) {
            Some(st) => Ok(&st.mode),
            None => Err(BotError::NotInCall),
        }
    }

    /// The mode that a message is handled in: a message from a person, in a
    /// guild where the bot is in a call, in that call's text channel; `None`
    /// for any other message, which the bot ignores.
    pub fn route_message(&self, author_is_bot: bool, guild_id: Option<u64>, channel_id: u64) -> (r:
        Option<&BotStateMode<L>>)
        ensures
            r is Some <==> message_is_handled(self.calls(), author_is_bot, guild_id, channel_id),
            r matches Some(m) ==> *m == self.calls()[guild_id->0].mode,
    {
        if author_is_bot {
            return None;
        }
        let gid = match guild_id {
            Some(g) => g,
            None => {
                return None;
            },
        };
        let cid = match self.get_call_txt_ch(gid) {
            Ok(c) => c,
            Err(_) => {
                return None;
            },
        };
        if cid != channel_id {
            return None;
        }
        match self.get_call_mode(gid) {
            Ok(m) => Some(m),
            Err(_) => None,
        }
    }

    /// Forgets the call in `guild_id`, ending the mode it was in.
    pub fn erase_call_state<F: Fn(&L) -> Option<String>>(
        &mut self,
        guild_id: u64,
        end_lesson: &F,
    ) -> (r: Result<(), BotError>)
        requires
            forall|s: &L| #[trigger] call_requires(*end_lesson, (s,)),
        ensures
            final(self).calls() == old(self).calls().remove(guild_id),
            r is Err <==> !old(self).calls().contains_key(guild_id),
            r matches Err(e) ==> e == BotError::NotInCall,
            r is Ok ==> exists|out: Option<String>|
                discard_outcome(old(self).calls()[guild_id].mode, *end_lesson, out),
    {
        let ghost calls0 = old(self).calls();
        match self.states.remove(&guild_id) {
            None => Err(BotError::NotInCall),
            Some(st) => {
                let out = st.mode.discard(end_lesson);
                proof {
                    assert(st == calls0[guild_id]);
                    assert(discard_outcome(calls0[guild_id].mode, *end_lesson, out));
                }
                Ok(())
            },
        }
    }
}

/// Once a call is recorded for a guild, its text channel is the one given and
/// its mode is the normal one.
pub proof fn law_added_call_reads_back<L>(calls: Map<u64, BotState<L>>, guild_id: u64, ch: u64)
    requires
        !calls.contains_key(guild_id),
    ensures
        txt_ch_of(added(calls, guild_id, ch), guild_id) == Ok::<u64, BotError>(ch),
        added(calls, guild_id, ch)[guild_id].mode == BotStateMode::<L>::Normal,
{
}

/// A guild is in at most one call: recording a second one changes nothing.
pub proof fn law_second_add_changes_nothing<L>(
    calls: Map<u64, BotState<L>>,
    guild_id: u64,
    ch1: u64,
    ch2: u64,
)
    ensures
        added(added(calls, guild_id, ch1), guild_id, ch2) == added(calls, guild_id, ch1),
{
}

/// Switching the mode of a call keeps its text channel, and the call is then
/// in the new mode.
pub proof fn law_switch_keeps_channel<L>(
    calls: Map<u64, BotState<L>>,
    guild_id: u64,
    mode: BotStateMode<L>,
)
    ensures
        txt_ch_of(switched(calls, guild_id, mode), guild_id) == txt_ch_of(calls, guild_id),
        calls.contains_key(guild_id) ==> switched(calls, guild_id, mode)[guild_id].mode == mode,
{
}

/// Once a call is erased, the guild is in no call.
pub proof fn law_erased_call_is_gone<L>(calls: Map<u64, BotState<L>>, guild_id: u64)
    ensures
        txt_ch_of(calls.remove(guild_id), guild_id) == Err::<u64, BotError>(BotError::NotInCall),
{
}

/// Adding, switching and erasing the call of one guild leave the calls of
/// every other guild as they were.
pub proof fn law_other_guilds_untouched<L>(
    calls: Map<u64, BotState<L>>,
    guild_id: u64,
    other: u64,
    ch: u64,
    mode: BotStateMode<L>,
)
    requires
        other != guild_id,
    ensures
        added(calls, guild_id, ch).contains_key(other) == calls.contains_key(other),
        switched(calls, guild_id, mode).contains_key(other) == calls.contains_key(other),
        calls.remove(guild_id).contains_key(other) == calls.contains_key(other),
        calls.contains_key(other) ==> {
            &&& added(calls, guild_id, ch)[other] == calls[other]
            &&& switched(calls, guild_id, mode)[other] == calls[other]
            &&& calls.remove(guild_id)[other] == calls[other]
        },
{
}

/// One request to the registry of calls.
pub enum CallStep<L> {
    /// `add_call_state(guild_id, ch)`.
    Add { guild_id: u64, ch: u64 },
    /// `switch_mode(guild_id, mode, ..)`.
    Switch { guild_id: u64, mode: BotStateMode<L> },
    /// `erase_call_state(guild_id, ..)`.
    Erase { guild_id: u64 },
}

/// The calls after one request, as the contracts of the requests state.
pub open spec fn after_step<L>(calls: Map<u64, BotState<L>>, step: CallStep<L>) -> Map<
    u64,
    BotState<L>,
> {
    match step {
        CallStep::Add { guild_id, ch } => added(calls, guild_id, ch),
        CallStep::Switch { guild_id, mode } => switched(calls, guild_id, mode),
        CallStep::Erase { guild_id } => calls.remove(guild_id),
    }
}

/// The calls after a sequence of requests, made in order.
pub open spec fn after_steps<L>(calls: Map<u64, BotState<L>>, steps: Seq<CallStep<L>>) -> Map<
    u64,
    BotState<L>,
>
    decreases steps.len(),
{
    if steps.len() == 0 {
        calls
    } else {
        after_step(after_steps(calls, steps.drop_last()), steps.last())
    }
}

/// Whether `steps` hold an erasure of the call in `guild_id`.
pub open spec fn erases<L>(steps: Seq<CallStep<L>>, guild_id: u64) -> bool {
    exists|k: int| 0 <= k < steps.len() && is_erase_of(#[trigger] steps[k], guild_id)
}

/// Whether `step` erases the call in `guild_id`.
pub open spec fn is_erase_of<L>(step: CallStep<L>, guild_id: u64) -> bool {
    match step {
        CallStep::Erase { guild_id: g } => g == guild_id,
        _ => false,
    }
}

/// The mode that `steps` leave the call in `guild_id` in, starting from
/// `mode`: the mode of the last switch of that call, or `mode` where there
/// is none.
pub open spec fn last_mode<L>(steps: Seq<CallStep<L>>, guild_id: u64, mode: BotStateMode<L>) -> BotStateMode<L>
    decreases steps.len(),
{
    if steps.len() == 0 {
        mode
    } else {
        match steps.last() {
            CallStep::Switch { guild_id: g, mode: m } => if g == guild_id {
                m
            } else {
                last_mode(steps.drop_last(), guild_id, mode)
            },
            _ => last_mode(steps.drop_last(), guild_id, mode),
        }
    }
}

/// As long as the call in `guild_id` is not erased, whatever requests come,
/// it stays, its text channel stays the one it was recorded with, and its
/// mode is the one that the last switch of it installed.
pub proof fn law_call_persists_until_erased<L>(
    calls: Map<u64, BotState<L>>,
    guild_id: u64,
    steps: Seq<CallStep<L>>,
)
    requires
        calls.contains_key(guild_id),
        !erases(steps, guild_id),
    ensures
        after_steps(calls, steps).contains_key(guild_id),
        txt_ch_of(after_steps(calls, steps), guild_id) == txt_ch_of(calls, guild_id),
        after_steps(calls, steps)[guild_id].mode == last_mode(
            steps,
            guild_id,
            calls[guild_id].mode,
        ),
    decreases steps.len(),
{
    if steps.len() > 0 {
        let rest = steps.drop_last();
        assert(!erases(rest, guild_id)) by {
            if erases(rest, guild_id) {
                let k = choose|k: int| 0 <= k < rest.len() && is_erase_of(#[trigger] rest[k], guild_id);
                assert(steps[k] == rest[k]);
            }
        }
        law_call_persists_until_erased(calls, guild_id, rest);
        let last = steps.last();
        assert(steps[steps.len() - 1] == last);
        assert(!is_erase_of(last, guild_id));
    }
}

/// Once a call is recorded for a guild with the text channel `ch`, that
/// channel is what any later sequence of requests without an erasure of the
/// call reads back, and the call starts in the normal mode.
pub proof fn law_recorded_channel_reads_back<L>(
    calls: Map<u64, BotState<L>>,
    guild_id: u64,
    ch: u64,
    steps: Seq<CallStep<L>>,
)
    requires
        !calls.contains_key(guild_id),
        !erases(steps, guild_id),
    ensures
        txt_ch_of(after_steps(added(calls, guild_id, ch), steps), guild_id) == Ok::<u64, BotError>(ch),
        after_steps(added(calls, guild_id, ch), steps)[guild_id].mode == last_mode(
            steps,
            guild_id,
            BotStateMode::<L>::Normal,
        ),
{
    law_call_persists_until_erased(added(calls, guild_id, ch), guild_id, steps);
}

} // verus!
