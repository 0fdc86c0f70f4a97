use vellum_fe::dot_command::{parse_dot_command, DotCommand, SimpleCommand, UsageOf};

fn s(x: &str) -> String {
    x.to_string()
}

#[test]
fn simple_commands_and_aliases() {
    assert_eq!(parse_dot_command(".quit"), DotCommand::Simple(SimpleCommand::Quit));
    assert_eq!(parse_dot_command(".q"), DotCommand::Simple(SimpleCommand::Quit));
    assert_eq!(parse_dot_command(".layouts"), DotCommand::Simple(SimpleCommand::ListLayouts));
    assert_eq!(parse_dot_command(".listwindows"), DotCommand::Simple(SimpleCommand::ListWindows));
    assert_eq!(parse_dot_command(".availablewindows"), DotCommand::Simple(SimpleCommand::ListTemplates));
    assert_eq!(parse_dot_command(".randprog"), DotCommand::Simple(SimpleCommand::RandomProgress));
    assert_eq!(parse_dot_command(".indicatoroff"), DotCommand::Simple(SimpleCommand::IndicatorsOff));
    assert_eq!(parse_dot_command("."), DotCommand::Nothing);
    assert_eq!(parse_dot_command(".   "), DotCommand::Nothing);
    assert_eq!(parse_dot_command(".frobnicate now"), DotCommand::Unknown(s("frobnicate")));
}

#[test]
fn layout_names_default_to_default() {
    assert_eq!(parse_dot_command(".savelayout"), DotCommand::SaveLayout(s("default")));
    assert_eq!(parse_dot_command(".savelayout  hunting  extra"), DotCommand::SaveLayout(s("hunting")));
    assert_eq!(parse_dot_command(".loadlayout\tsmall"), DotCommand::LoadLayout(s("small")));
}

#[test]
fn window_commands_check_their_arguments() {
    assert_eq!(parse_dot_command(".createwindow"), DotCommand::Usage(UsageOf::CreateWindow));
    assert_eq!(parse_dot_command(".createwin spacer"), DotCommand::CreateWindow(s("spacer")));
    assert_eq!(parse_dot_command(".customwindow combat"), DotCommand::Usage(UsageOf::CustomWindow));
    assert_eq!(
        parse_dot_command(".customwindow combat combat,death,"),
        DotCommand::CustomWindow(s("combat"), vec![s("combat"), s("death"), s("")])
    );
    assert_eq!(parse_dot_command(".deletewin loot"), DotCommand::DeleteWindow(s("loot")));
    assert_eq!(parse_dot_command(".rename loot"), DotCommand::Usage(UsageOf::Rename));
    assert_eq!(parse_dot_command(".rename loot My   Loot Window"), DotCommand::Rename(s("loot"), s("My Loot Window")));
}

#[test]
fn border_styles_are_checked() {
    assert_eq!(parse_dot_command(".border main"), DotCommand::Usage(UsageOf::Border));
    assert_eq!(parse_dot_command(".border main wavy"), DotCommand::InvalidBorderStyle(s("wavy")));
    assert_eq!(
        parse_dot_command(".border main rounded #00ff00"),
        DotCommand::Border(s("main"), Some(s("rounded")), Some(s("#00ff00")))
    );
    assert_eq!(parse_dot_command(".border main none"), DotCommand::Border(s("main"), None, None));
}

#[test]
fn numbers_and_colors_are_checked() {
    assert_eq!(parse_dot_command(".setprogress health 150"), DotCommand::Usage(UsageOf::SetProgress));
    assert_eq!(parse_dot_command(".setprogress health 150 200"), DotCommand::SetProgress(s("health"), 150, 200));
    assert_eq!(parse_dot_command(".setprog health 150 lots"), DotCommand::ProgressNotNumbers);
    assert_eq!(parse_dot_command(".setprog health 150 4294967296"), DotCommand::ProgressNotNumbers);
    assert_eq!(parse_dot_command(".setcountdown roundtime"), DotCommand::Usage(UsageOf::SetCountdown));
    assert_eq!(parse_dot_command(".setcountdown roundtime +5"), DotCommand::SetCountdown(s("roundtime"), 5));
    assert_eq!(
        parse_dot_command(".setcountdown roundtime 18446744073709551615"),
        DotCommand::SetCountdown(s("roundtime"), u64::MAX)
    );
    assert_eq!(parse_dot_command(".setcountdown roundtime 18446744073709551616"), DotCommand::CountdownNotNumber);
    assert_eq!(parse_dot_command(".setbarcolor health"), DotCommand::Usage(UsageOf::SetBarColor));
    assert_eq!(parse_dot_command(".setbarcolor health 6e0202"), DotCommand::BadBarColor);
    assert_eq!(parse_dot_command(".barcolor health #6e020"), DotCommand::BadBarColor);
    assert_eq!(parse_dot_command(".barcolor health #é0202"), DotCommand::SetBarColor(s("health"), s("#é0202"), None));
    assert_eq!(parse_dot_command(".barcolor health #6e0202 2a0101"), DotCommand::BadBackgroundColor);
    assert_eq!(
        parse_dot_command(".setbarcolor health #6e0202 #2a0101"),
        DotCommand::SetBarColor(s("health"), s("#6e0202"), Some(s("#2a0101")))
    );
}
