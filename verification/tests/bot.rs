use cwbot::commands::{not_implemented_reply, reply_for, ReplyAction};
use cwbot::{needs_defer, parse_command, Bot, BotError, BotStateMode, LessonLongModeState, SlashCommand};

fn end_lesson(s: &u32) -> Option<String> {
    Some(format!("lesson {s} ended"))
}

#[test]
fn add_then_read_back() {
    let mut bot: Bot<u32> = Bot::new();
    assert_eq!(bot.get_call_txt_ch(1), Err(BotError::NotInCall));
    assert_eq!(bot.add_call_state(1, 100), Ok(()));
    assert_eq!(bot.get_call_txt_ch(1), Ok(100));
    assert!(matches!(bot.get_call_mode(1), Ok(BotStateMode::Normal)));
    assert_eq!(bot.add_call_state(1, 200), Err(BotError::AlreadyInCall));
    assert_eq!(bot.get_call_txt_ch(1), Ok(100));
    assert_eq!(BotError::AlreadyInCall.message(), "already in call");
    assert_eq!(BotError::NotInCall.message(), "not in call");
}

#[test]
fn switching_modes_reports_the_end_of_the_old_one() {
    let mut bot: Bot<u32> = Bot::new();
    assert_eq!(bot.switch_mode(5, BotStateMode::Normal, &end_lesson), Err(BotError::NotInCall));
    bot.add_call_state(5, 50).unwrap();
    assert_eq!(bot.switch_mode(5, BotStateMode::Lesson(7), &end_lesson), Ok(String::new()));
    assert!(matches!(bot.get_call_mode(5), Ok(BotStateMode::Lesson(7))));
    let st = LessonLongModeState::new("alpha", 5).unwrap();
    assert_eq!(
        bot.switch_mode(5, BotStateMode::LessonLong(st), &end_lesson),
        Ok("lesson 7 ended".to_string())
    );
    assert_eq!(
        bot.switch_mode(5, BotStateMode::Normal, &end_lesson),
        Ok("Long lesson ended".to_string())
    );
    assert_eq!(bot.get_call_txt_ch(5), Ok(50));
}

#[test]
fn erase_forgets_only_that_guild() {
    let mut bot: Bot<u32> = Bot::new();
    bot.add_call_state(1, 10).unwrap();
    bot.add_call_state(2, 20).unwrap();
    bot.switch_mode(2, BotStateMode::Lesson(3), &end_lesson).unwrap();
    assert_eq!(bot.erase_call_state(1, &end_lesson), Ok(()));
    assert_eq!(bot.get_call_txt_ch(1), Err(BotError::NotInCall));
    assert_eq!(bot.erase_call_state(1, &end_lesson), Err(BotError::NotInCall));
    assert_eq!(bot.get_call_txt_ch(2), Ok(20));
    assert!(matches!(bot.get_call_mode(2), Ok(BotStateMode::Lesson(3))));
    assert_eq!(bot.add_call_state(1, 11), Ok(()));
    assert_eq!(bot.get_call_txt_ch(1), Ok(11));
}

#[test]
fn discard_reports() {
    assert_eq!(BotStateMode::<u32>::Normal.discard(&end_lesson), None);
    assert_eq!(BotStateMode::Lesson(4u32).discard(&end_lesson), Some("lesson 4 ended".to_string()));
    let st = LessonLongModeState::new("koch:2", 5).unwrap();
    assert_eq!(
        BotStateMode::<u32>::LessonLong(st).discard(&end_lesson),
        Some("Long lesson ended".to_string())
    );
}

#[test]
fn messages_are_routed_to_the_call_of_their_channel() {
    let mut bot: Bot<u32> = Bot::new();
    bot.add_call_state(9, 90).unwrap();
    assert!(matches!(bot.route_message(false, Some(9), 90), Some(BotStateMode::Normal)));
    assert!(bot.route_message(true, Some(9), 90).is_none());
    assert!(bot.route_message(false, None, 90).is_none());
    assert!(bot.route_message(false, Some(9), 91).is_none());
    assert!(bot.route_message(false, Some(8), 90).is_none());
}

#[test]
fn neko_mews() {
    let bot: Bot<u32> = Bot::new();
    assert_eq!(bot.run_command_neko(None), "にゃーん");
    assert_eq!(bot.run_command_neko(Some(3)), "にゃーんにゃーんにゃーん");
    assert_eq!(bot.run_command_neko(Some(0)), "にゃーん");
    assert_eq!(bot.run_command_neko(Some(-5)), "にゃーん");
    assert_eq!(bot.run_command_neko(Some(100)), "にゃーん".repeat(32));
    assert_eq!(bot.run_command_neko(Some(32)), "にゃーん".repeat(32));
}

#[test]
fn command_names() {
    assert_eq!(parse_command("neko"), SlashCommand::Neko);
    assert_eq!(parse_command("cw-join"), SlashCommand::Join);
    assert_eq!(parse_command("cw-leave"), SlashCommand::Leave);
    assert_eq!(parse_command("cw-speed"), SlashCommand::Speed);
    assert_eq!(parse_command("cw-freq"), SlashCommand::Freq);
    assert_eq!(parse_command("cw-start-lesson"), SlashCommand::StartLesson);
    assert_eq!(parse_command("cw-end-lesson"), SlashCommand::EndLesson);
    assert_eq!(parse_command("cw-start-long-lesson"), SlashCommand::StartLongLesson);
    assert_eq!(parse_command("cw-play"), SlashCommand::Other);
    assert!(needs_defer(SlashCommand::Join));
    assert!(needs_defer(SlashCommand::Leave));
    assert!(!needs_defer(SlashCommand::Neko));
    assert_eq!(not_implemented_reply(), "not implemented :(");
}

#[test]
fn replies_follow_the_protocol() {
    assert!(matches!(reply_for(SlashCommand::Neko, Ok("hi".to_string())), ReplyAction::Create(t) if t == "hi"));
    assert!(matches!(reply_for(SlashCommand::Join, Ok("got it!".to_string())), ReplyAction::Edit(t) if t == "got it!"));
    assert!(matches!(reply_for(SlashCommand::Leave, Err("not in call".to_string())), ReplyAction::Edit(t) if t == "not in call"));
    assert!(matches!(reply_for(SlashCommand::EndLesson, Ok(String::new())), ReplyAction::Nothing));
    assert!(matches!(reply_for(SlashCommand::Speed, Err("no argument".to_string())), ReplyAction::Create(t) if t == "no argument"));
}

#[test]
fn channel_survives_any_requests_but_erasure() {
    let mut bot: Bot<u32> = Bot::new();
    bot.add_call_state(1, 10).unwrap();
    bot.add_call_state(2, 20).unwrap();
    bot.switch_mode(1, BotStateMode::Lesson(1), &end_lesson).unwrap();
    let _ = bot.add_call_state(1, 99);
    bot.erase_call_state(2, &end_lesson).unwrap();
    bot.switch_mode(1, BotStateMode::Lesson(2), &end_lesson).unwrap();
    let _ = bot.switch_mode(2, BotStateMode::Normal, &end_lesson);
    assert_eq!(bot.get_call_txt_ch(1), Ok(10));
    assert!(matches!(bot.get_call_mode(1), Ok(BotStateMode::Lesson(2))));
}
