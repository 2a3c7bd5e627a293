use hpp_editor::console::{Console, Level, LogLine, Rgb, MAX_LOGS};

fn line(number: usize) -> LogLine {
    LogLine { level: Level::Info, text: format!("line {}", number) }
}

#[test]
fn console_keeps_the_latest_lines() {
    let mut console = Console::new();
    assert!(console.logs().is_empty());
    for number in 0..MAX_LOGS {
        console.update(line(number));
    }
    assert_eq!(console.logs().len(), 500);
    assert_eq!(console.logs()[0].text, "line 0");
    console.update(line(500));
    console.update(line(501));
    assert_eq!(console.logs().len(), 500);
    assert_eq!(console.logs()[0].text, "line 2");
    assert_eq!(console.logs()[499].text, "line 501");
    assert!(Console::default().logs().is_empty());
}

#[test]
fn levels_have_their_colours() {
    assert_eq!(Console::level_color(Level::Error), Rgb { r: 255, g: 51, b: 102 });
    assert_eq!(Console::level_color(Level::Warn), Rgb { r: 255, g: 204, b: 85 });
    assert_eq!(Console::level_color(Level::Info), Rgb { r: 68, g: 170, b: 238 });
    assert_eq!(Console::level_color(Level::Debug), Rgb { r: 160, g: 160, b: 160 });
    assert_eq!(Console::level_color(Level::Trace), Rgb { r: 160, g: 160, b: 160 });
}
