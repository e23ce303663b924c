use batch_translator::Timer;
use batch_translator::timer_step;
use batch_translator::textures::TextureLine;
use batch_translator::textures::Textures;
use batch_translator::textures::TranslatedLine;
use batch_translator::textures::Translator;
use batch_translator::translator::TranslateEvent;
use batch_translator::translator::supervisor_step;
use batch_translator::utils::RateLimit;
use batch_translator::utils::rate_limit_pause;

fn small_textures() -> Textures {
    Textures {
        lines: vec![
            TextureLine::new(0, 2, "a\n".to_string(), false),
            TextureLine::new(2, 2, "b\n".to_string(), false),
            TextureLine::new(4, 2, "c\n".to_string(), false),
        ],
        curr_index: 0,
        name: "t.txt".to_string(),
    }
}

#[test]
fn update_records_on_start_line() {
    let mut t = small_textures();
    t.update(TranslatedLine::new(Translator::ChatGPT, "X".to_string(), 1, 2));
    assert_eq!(t.curr_index, 2);
    assert_eq!(t.lines[0].translated.len(), 0);
    assert_eq!(t.lines[1].translated.len(), 1);
    assert_eq!(t.lines[2].translated.len(), 0);
    assert_eq!(t.lines[1].translated[0].content, "X");
    assert_eq!(t.lines[1].translated[0].batch_range, (1, 2));
}

#[test]
fn update_replaces_same_translator_in_place() {
    let mut t = small_textures();
    t.update(TranslatedLine::new(Translator::ChatGPT, "first".to_string(), 0, 1));
    t.update(TranslatedLine::new(Translator::ChatGPT, "second".to_string(), 0, 2));
    assert_eq!(t.lines[0].translated.len(), 1);
    assert_eq!(t.lines[0].translated[0].content, "second");
    assert_eq!(t.lines[0].translated[0].batch_range, (0, 2));
    assert_eq!(t.curr_index, 2);
}

#[test]
fn update_twice_with_same_change_is_idempotent() {
    let mut once = small_textures();
    once.update(TranslatedLine::new(Translator::ChatGPT, "X".to_string(), 0, 1));
    let mut twice = small_textures();
    twice.update(TranslatedLine::new(Translator::ChatGPT, "X".to_string(), 0, 1));
    twice.update(TranslatedLine::new(Translator::ChatGPT, "X".to_string(), 0, 1));
    assert_eq!(once.curr_index, twice.curr_index);
    assert_eq!(once.lines.len(), twice.lines.len());
    for (a, b) in once.lines.iter().zip(twice.lines.iter()) {
        assert_eq!(a.translated.len(), b.translated.len());
        for (x, y) in a.translated.iter().zip(b.translated.iter()) {
            assert_eq!(x.content, y.content);
            assert_eq!(x.batch_range, y.batch_range);
        }
    }
}

#[test]
fn clone_is_structural() {
    let mut t = small_textures();
    t.update(TranslatedLine::new(Translator::ChatGPT, "X".to_string(), 0, 0));
    let c = t.clone();
    assert_eq!(c.curr_index, t.curr_index);
    assert_eq!(c.name, t.name);
    assert_eq!(c.lines.len(), t.lines.len());
    assert_eq!(c.lines[0].translated[0].content, "X");
}

#[test]
fn supervisor_step_records_line() {
    let mut t = small_textures();
    let mut wait: i32 = 1;
    let l = TranslatedLine::new(Translator::ChatGPT, "X".to_string(), 0, 1);
    let (save, done) = supervisor_step(&mut t, &mut wait, TranslateEvent::Line(l), false);
    assert!(!save);
    assert!(!done);
    assert_eq!(t.curr_index, 1);
    assert_eq!(wait, 1);
}

#[test]
fn supervisor_step_finishes_on_close() {
    let mut t = small_textures();
    let mut wait: i32 = 1;
    let (save, done) = supervisor_step(&mut t, &mut wait, TranslateEvent::Closed(1), false);
    assert!(save);
    assert!(done);
    assert_eq!(wait, 0);
}

#[test]
fn timer_with_zero_interval_fires() {
    let mut timer = Timer::new(0);
    assert!(timer.finished());
}

#[test]
fn timer_step_decides_the_cadence() {
    // Started at 1000 ms with a 60 s period: not yet at 60 999, due at
    // 61 000, and a backward-moving clock counts as no time passed.
    assert!(!timer_step(1000, 60_000, 60_999));
    assert!(timer_step(1000, 60_000, 61_000));
    assert!(!timer_step(1000, 60_000, 500));
    assert!(timer_step(1000, 0, 1000));
}

#[test]
fn rate_limit_pause_decides_the_sleep() {
    // Window opened at 1000 ms, span 3000 ms: at 2500 ms half the window
    // is left; past 4000 ms nothing is; a backward clock asks for the
    // whole span.
    assert_eq!(rate_limit_pause(3000, 1000, 2500), Some(1500));
    assert_eq!(rate_limit_pause(3000, 1000, 4000), Some(0));
    assert_eq!(rate_limit_pause(3000, 1000, 4001), None);
    assert_eq!(rate_limit_pause(3000, 1000, 400), Some(3000));
}

#[test]
fn rate_limit_counts_to_limit_then_resets() {
    let mut rl = RateLimit::new(2, 60_000);
    assert!(rl.wait().is_none());
    assert!(rl.wait().is_none());
    assert_eq!(rl.current, 2);
    let pause = rl.wait();
    assert_eq!(rl.current, 0);
    if let Some(d) = pause {
        assert!(d <= 60_000);
    }
}
