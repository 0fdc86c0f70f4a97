//! The client's dot commands (`.savelayout`, `.border`, ...): what a typed
//! command line asks for. Reading the line and checking its arguments is
//! decided here; carrying the command out (on windows, files, the clock)
//! is the caller's.

use vstd::prelude::*;
use crate::text::{
    chars_eq, chars_of, is_ws, join_spaces, lemma_words_two, join_spaces_from, parse_u32, parse_u32_spec, parse_u64,
    parse_u64_spec, split_chars, split_on, string_from_chars, subrange_chars, trim, trim_chars,
    utf8_len, utf8_len_is, words, words_exec,
};

verus! {

/// A dot command that takes no argument.
#[derive(Debug, Clone, Copy, PartialEq, Eq, Structural)]
pub enum SimpleCommand {
    /// `.quit`, `.q`: stop the client.
    Quit,
    /// `.layouts`: list the saved layouts.
    ListLayouts,
    /// `.windows`, `.listwindows`.
    ListWindows,
    /// `.templates`, `.availablewindows`.
    ListTemplates,
    /// `.indicatoron`: force the status indicators on.
    IndicatorsOn,
    /// `.indicatoroff`: force them off.
    IndicatorsOff,
    /// `.randominjuries`, `.randinjuries`.
    RandomInjuries,
    /// `.randomcompass`, `.randcompass`.
    RandomCompass,
    /// `.randomprogress`, `.randprog`.
    RandomProgress,
    /// `.randomcountdowns`, `.randcountdowns`.
    RandomCountdowns,
}

/// A dot command given too few arguments: its usage is shown.
#[derive(Debug, Clone, Copy, PartialEq, Eq, Structural)]
pub enum UsageOf {
    CreateWindow,
    CustomWindow,
    DeleteWindow,
    Rename,
    Border,
    SetProgress,
    SetCountdown,
    SetBarColor,
}

/// What a dot command line asks for.
#[derive(Debug, Clone, PartialEq)]
pub enum DotCommand {
    /// The line holds no command word.
    Nothing,
    Simple(SimpleCommand),
    Usage(UsageOf),
    /// `.savelayout [name]` (the name defaults to `default`).
    SaveLayout(String),
    /// `.loadlayout [name]` (the name defaults to `default`).
    LoadLayout(String),
    /// `.createwindow <template>`.
    CreateWindow(String),
    /// `.customwindow <name> <stream,stream,...>`: the streams trimmed.
    CustomWindow(String, Vec<String>),
    /// `.deletewindow <name>`.
    DeleteWindow(String),
    /// `.rename <window> <title words...>`: the title's words joined by
    /// single spaces.
    Rename(String, String),
    /// `.border <window> <style> [color]`: the style, or `None` for `none`
    /// (no border), and the color when given.
    Border(String, Option<String>, Option<String>),
    /// `.border` with a style that is not one of single, double, rounded,
    /// thick, none.
    InvalidBorderStyle(String),
    /// `.setprogress <window> <current> <max>`.
    SetProgress(String, u32, u32),
    /// `.setprogress` whose current or max is not a number.
    ProgressNotNumbers,
    /// `.setcountdown <window> <seconds>`.
    SetCountdown(String, u64),
    /// `.setcountdown` whose seconds are not a number.
    CountdownNotNumber,
    /// `.setbarcolor <window> <#RRGGBB> [<#RRGGBB>]`.
    SetBarColor(String, String, Option<String>),
    /// The bar color is not of the form `#RRGGBB`.
    BadBarColor,
    /// The background color is not of the form `#RRGGBB`.
    BadBackgroundColor,
    /// Any other command word.
    Unknown(String),
}

/// A dot command with its text taken by its views.
pub enum DotView {
    Nothing,
    Simple(SimpleCommand),
    Usage(UsageOf),
    SaveLayout(Seq<char>),
    LoadLayout(Seq<char>),
    CreateWindow(Seq<char>),
    CustomWindow(Seq<char>, Seq<Seq<char>>),
    DeleteWindow(Seq<char>),
    Rename(Seq<char>, Seq<char>),
    Border(Seq<char>, Option<Seq<char>>, Option<Seq<char>>),
    InvalidBorderStyle(Seq<char>),
    SetProgress(Seq<char>, u32, u32),
    ProgressNotNumbers,
    SetCountdown(Seq<char>, u64),
    CountdownNotNumber,
    SetBarColor(Seq<char>, Seq<char>, Option<Seq<char>>),
    BadBarColor,
    BadBackgroundColor,
    Unknown(Seq<char>),
}

pub open spec fn opt_text_view(o: Option<String>) -> Option<Seq<char>> {
    match o {
        Some(s) => Some(s@),
        None => None,
    }
}

impl View for DotCommand {
    type V = DotView;

    open spec fn view(&self) -> DotView {
        match self {
            DotCommand::Nothing => DotView::Nothing,
            DotCommand::Simple(c) => DotView::Simple(*c),
            DotCommand::Usage(u) => DotView::Usage(*u),
            DotCommand::SaveLayout(n) => DotView::SaveLayout(n@),
            DotCommand::LoadLayout(n) => DotView::LoadLayout(n@),
            DotCommand::CreateWindow(n) => DotView::CreateWindow(n@),
            DotCommand::CustomWindow(n, s) => DotView::CustomWindow(
                n@,
                s@.map_values(|x: String| x@),
            ),
            DotCommand::DeleteWindow(n) => DotView::DeleteWindow(n@),
            DotCommand::Rename(n, t) => DotView::Rename(n@, t@),
            DotCommand::Border(n, s, c) => DotView::Border(n@, opt_text_view(*s), opt_text_view(*c)),
            DotCommand::InvalidBorderStyle(s) => DotView::InvalidBorderStyle(s@),
            DotCommand::SetProgress(n, c, m) => DotView::SetProgress(n@, *c, *m),
            DotCommand::ProgressNotNumbers => DotView::ProgressNotNumbers,
            DotCommand::SetCountdown(n, s) => DotView::SetCountdown(n@, *s),
            DotCommand::CountdownNotNumber => DotView::CountdownNotNumber,
            DotCommand::SetBarColor(n, b, g) => DotView::SetBarColor(n@, b@, opt_text_view(*g)),
            DotCommand::BadBarColor => DotView::BadBarColor,
            DotCommand::BadBackgroundColor => DotView::BadBackgroundColor,
            DotCommand::Unknown(w) => DotView::Unknown(w@),
        }
    }
}

/// A color written `#RRGGBB`: it starts with `#` and takes seven bytes.
pub open spec fn hex_color_form(s: Seq<char>) -> bool {
    s.len() > 0 && s[0] == '#' && utf8_len(s) == 7
}

/// The border styles a window can have.
pub open spec fn border_style_known(s: Seq<char>) -> bool {
    s == "single"@ || s == "double"@ || s == "rounded"@ || s == "thick"@ || s == "none"@
}

/// The word at `i`, when there is one.
pub open spec fn word_at(ws: Seq<Seq<char>>, i: int) -> Option<Seq<char>> {
    if 0 <= i < ws.len() {
        Some(ws[i])
    } else {
        None
    }
}

/// What the command whose words are `ws` asks for.
pub open spec fn dot_spec(ws: Seq<Seq<char>>) -> DotView {
    if ws.len() == 0 {
        DotView::Nothing
    } else {
        let c = ws[0];
        if c == "quit"@ || c == "q"@ {
            DotView::Simple(SimpleCommand::Quit)
        } else if c == "savelayout"@ {
            DotView::SaveLayout(if ws.len() > 1 { ws[1] } else { "default"@ })
        } else if c == "loadlayout"@ {
            DotView::LoadLayout(if ws.len() > 1 { ws[1] } else { "default"@ })
        } else if c == "layouts"@ {
            DotView::Simple(SimpleCommand::ListLayouts)
        } else if c == "createwindow"@ || c == "createwin"@ {
            if ws.len() < 2 { DotView::Usage(UsageOf::CreateWindow) } else { DotView::CreateWindow(ws[1]) }
        } else if c == "customwindow"@ || c == "customwin"@ {
            if ws.len() < 3 {
                DotView::Usage(UsageOf::CustomWindow)
            } else {
                DotView::CustomWindow(ws[1], split_on(ws[2], ',').map_values(|p: Seq<char>| trim(p)))
            }
        } else if c == "deletewindow"@ || c == "deletewin"@ {
            if ws.len() < 2 { DotView::Usage(UsageOf::DeleteWindow) } else { DotView::DeleteWindow(ws[1]) }
        } else if c == "windows"@ || c == "listwindows"@ {
            DotView::Simple(SimpleCommand::ListWindows)
        } else if c == "templates"@ || c == "availablewindows"@ {
            DotView::Simple(SimpleCommand::ListTemplates)
        } else if c == "indicatoron"@ {
            DotView::Simple(SimpleCommand::IndicatorsOn)
        } else if c == "indicatoroff"@ {
            DotView::Simple(SimpleCommand::IndicatorsOff)
        } else if c == "randominjuries"@ || c == "randinjuries"@ {
            DotView::Simple(SimpleCommand::RandomInjuries)
        } else if c == "randomcompass"@ || c == "randcompass"@ {
            DotView::Simple(SimpleCommand::RandomCompass)
        } else if c == "randomprogress"@ || c == "randprog"@ {
            DotView::Simple(SimpleCommand::RandomProgress)
        } else if c == "randomcountdowns"@ || c == "randcountdowns"@ {
            DotView::Simple(SimpleCommand::RandomCountdowns)
        } else if c == "rename"@ {
            if ws.len() < 3 { DotView::Usage(UsageOf::Rename) } else { DotView::Rename(ws[1], join_spaces(ws.skip(2))) }
        } else if c == "border"@ {
            if ws.len() < 3 {
                DotView::Usage(UsageOf::Border)
            } else if !border_style_known(ws[2]) {
                DotView::InvalidBorderStyle(ws[2])
            } else {
                DotView::Border(ws[1], if ws[2] == "none"@ { None } else { Some(ws[2]) }, word_at(ws, 3))
            }
        } else if c == "setprogress"@ || c == "setprog"@ {
            if ws.len() < 4 {
                DotView::Usage(UsageOf::SetProgress)
            } else {
                match (parse_u32_spec(ws[2]), parse_u32_spec(ws[3])) {
                    (Some(cur), Some(max)) => DotView::SetProgress(ws[1], cur, max),
                    _ => DotView::ProgressNotNumbers,
                }
            }
        } else if c == "setcountdown"@ {
            if ws.len() < 3 {
                DotView::Usage(UsageOf::SetCountdown)
            } else {
                match parse_u64_spec(ws[2]) {
                    Some(secs) => DotView::SetCountdown(ws[1], secs),
                    None => DotView::CountdownNotNumber,
                }
            }
        } else if c == "setbarcolor"@ || c == "barcolor"@ {
            if ws.len() < 3 {
                DotView::Usage(UsageOf::SetBarColor)
            } else if !hex_color_form(ws[2]) {
                DotView::BadBarColor
            } else if ws.len() > 3 && !hex_color_form(ws[3]) {
                DotView::BadBackgroundColor
            } else {
                DotView::SetBarColor(ws[1], ws[2], word_at(ws, 3))
            }
        } else {
            DotView::Unknown(c)
        }
    }
}

/// What the dot command line `line` (starting with `.`) asks for: the
/// words after the dot, split at whitespace, read as in `dot_spec`.
pub open spec fn dot_command_spec(line: Seq<char>) -> DotView {
    dot_spec(words(line.skip(1)))
}

fn word_is(w: &Vec<char>, lit: &str) -> (r: bool)
    ensures
        r == (w@ == lit@),
{
    chars_eq(w, &chars_of(lit))
}

fn text_of(w: &Vec<char>) -> (r: String)
    ensures
        r@ == w@,
{
    string_from_chars(w.as_slice())
}

fn hex_color_exec(w: &Vec<char>) -> (r: bool)
    ensures
        r == hex_color_form(w@),
{
    w.len() > 0 && w[0] == '#' && utf8_len_is(w, 7)
}

/// Reads a dot command line (one that starts with `.`).
pub fn parse_dot_command(line: &str) -> (r: DotCommand)
    requires
        line@.len() > 0,
        line@[0] == '.',
    ensures
        r@ == dot_command_spec(line@),
{
    let chars = chars_of(line);
    let rest = subrange_chars(&chars, 1, chars.len());
    proof {
        assert(rest@ =~= line@.skip(1));
    }
    let ws = words_exec(&rest);
    let ghost wv = ws@.map_values(|w: Vec<char>| w@);
    assert(wv == words(line@.skip(1)));
    if ws.len() == 0 {
        return DotCommand::Nothing;
    }
    let c = &ws[0];
    assert(c@ == wv[0]);
    let n = ws.len();
    if word_is(c, "quit") || word_is(c, "q") {
        DotCommand::Simple(SimpleCommand::Quit)
    } else if word_is(c, "savelayout") {
        DotCommand::SaveLayout(if n > 1 { text_of(&ws[1]) } else { string_from_chars(chars_of("default").as_slice()) })
    } else if word_is(c, "loadlayout") {
        DotCommand::LoadLayout(if n > 1 { text_of(&ws[1]) } else { string_from_chars(chars_of("default").as_slice()) })
    } else if word_is(c, "layouts") {
        DotCommand::Simple(SimpleCommand::ListLayouts)
    } else if word_is(c, "createwindow") || word_is(c, "createwin") {
        if n < 2 { DotCommand::Usage(UsageOf::CreateWindow) } else { DotCommand::CreateWindow(text_of(&ws[1])) }
    } else if word_is(c, "customwindow") || word_is(c, "customwin") {
        if n < 3 {
            DotCommand::Usage(UsageOf::CustomWindow)
        } else {
            let pieces = split_chars(&ws[2], ',');
            let ghost pv = pieces@.map_values(|p: Vec<char>| p@);
            let mut streams: Vec<String> = Vec::new();
            let mut i: usize = 0;
            while i < pieces.len()
                invariant
                    pv == pieces@.map_values(|p: Vec<char>| p@),
                    i <= pieces@.len(),
                    streams@.map_values(|x: String| x@) == pv.take(i as int).map_values(|p: Seq<char>| trim(p)),
                decreases pieces@.len() - i,
            {
                let t = trim_chars(&pieces[i]);
                let ghost before = streams@.map_values(|x: String| x@);
                streams.push(text_of(&t));
                proof {
                    assert(pv[i as int] == pieces@[i as int]@);
                    assert(streams@.map_values(|x: String| x@) =~= before.push(trim(pv[i as int])));
                    assert(pv.take(i as int + 1).map_values(|p: Seq<char>| trim(p)) =~= pv.take(i as int).map_values(
                        |p: Seq<char>| trim(p),
                    ).push(trim(pv[i as int])));
                }
                i = i + 1;
            }
            proof {
                assert(pv.take(i as int) =~= pv);
                assert(pv == split_on(ws@[2]@, ','));
            }
            DotCommand::CustomWindow(text_of(&ws[1]), streams)
        }
    } else if word_is(c, "deletewindow") || word_is(c, "deletewin") {
        if n < 2 { DotCommand::Usage(UsageOf::DeleteWindow) } else { DotCommand::DeleteWindow(text_of(&ws[1])) }
    } else if word_is(c, "windows") || word_is(c, "listwindows") {
        DotCommand::Simple(SimpleCommand::ListWindows)
    } else if word_is(c, "templates") || word_is(c, "availablewindows") {
        DotCommand::Simple(SimpleCommand::ListTemplates)
    } else if word_is(c, "indicatoron") {
        DotCommand::Simple(SimpleCommand::IndicatorsOn)
    } else if word_is(c, "indicatoroff") {
        DotCommand::Simple(SimpleCommand::IndicatorsOff)
    } else if word_is(c, "randominjuries") || word_is(c, "randinjuries") {
        DotCommand::Simple(SimpleCommand::RandomInjuries)
    } else if word_is(c, "randomcompass") || word_is(c, "randcompass") {
        DotCommand::Simple(SimpleCommand::RandomCompass)
    } else if word_is(c, "randomprogress") || word_is(c, "randprog") {
        DotCommand::Simple(SimpleCommand::RandomProgress)
    } else if word_is(c, "randomcountdowns") || word_is(c, "randcountdowns") {
        DotCommand::Simple(SimpleCommand::RandomCountdowns)
    } else if word_is(c, "rename") {
        if n < 3 {
            DotCommand::Usage(UsageOf::Rename)
        } else {
            let title = join_spaces_from(&ws, 2);
            DotCommand::Rename(text_of(&ws[1]), text_of(&title))
        }
    } else if word_is(c, "border") {
        if n < 3 {
            DotCommand::Usage(UsageOf::Border)
        } else {
            let style = &ws[2];
            let known = word_is(style, "single") || word_is(style, "double") || word_is(style, "rounded")
                || word_is(style, "thick") || word_is(style, "none");
            if !known {
                DotCommand::InvalidBorderStyle(text_of(style))
            } else {
                let s = if word_is(style, "none") { None } else { Some(text_of(style)) };
                let color = if n > 3 { Some(text_of(&ws[3])) } else { None };
                DotCommand::Border(text_of(&ws[1]), s, color)
            }
        }
    } else if word_is(c, "setprogress") || word_is(c, "setprog") {
        if n < 4 {
            DotCommand::Usage(UsageOf::SetProgress)
        } else {
            match (parse_u32(&ws[2]), parse_u32(&ws[3])) {
                (Some(cur), Some(max)) => DotCommand::SetProgress(text_of(&ws[1]), cur, max),
                _ => DotCommand::ProgressNotNumbers,
            }
        }
    } else if word_is(c, "setcountdown") {
        if n < 3 {
            DotCommand::Usage(UsageOf::SetCountdown)
        } else {
            match parse_u64(&ws[2]) {
                Some(secs) => DotCommand::SetCountdown(text_of(&ws[1]), secs),
                None => DotCommand::CountdownNotNumber,
            }
        }
    } else if word_is(c, "setbarcolor") || word_is(c, "barcolor") {
        if n < 3 {
            DotCommand::Usage(UsageOf::SetBarColor)
        } else if !hex_color_exec(&ws[2]) {
            DotCommand::BadBarColor
        } else if n > 3 && !hex_color_exec(&ws[3]) {
            DotCommand::BadBackgroundColor
        } else {
            let bg = if n > 3 { Some(text_of(&ws[3])) } else { None };
            DotCommand::SetBarColor(text_of(&ws[1]), text_of(&ws[2]), bg)
        }
    } else {
        DotCommand::Unknown(text_of(c))
    }
}

/// `.deletewindow <name>` and its short form `.deletewin <name>` both ask
/// to delete the window named `name`, for every name.
pub proof fn deleting_a_window_names_it(n: Seq<char>)
    requires
        n.len() > 0,
        forall|i: int| 0 <= i < n.len() ==> !is_ws(n[i]),
    ensures
        dot_command_spec(".deletewindow "@ + n) == DotView::DeleteWindow(n),
        dot_command_spec(".deletewin "@ + n) == DotView::DeleteWindow(n),
{
    reveal_strlit(".deletewindow ");
    reveal_strlit(".deletewin ");
    reveal_strlit("deletewindow");
    reveal_strlit("deletewin");
    reveal_strlit("quit");
    reveal_strlit("q");
    reveal_strlit("savelayout");
    reveal_strlit("loadlayout");
    reveal_strlit("layouts");
    reveal_strlit("createwindow");
    reveal_strlit("createwin");
    reveal_strlit("customwindow");
    reveal_strlit("customwin");
    let long = "deletewindow"@;
    let short = "deletewin"@;
    assert((".deletewindow "@ + n).skip(1) =~= long + seq![' '] + n);
    assert((".deletewin "@ + n).skip(1) =~= short + seq![' '] + n);
    assert forall|i: int| 0 <= i < long.len() implies !is_ws(long[i]) by {}
    assert forall|i: int| 0 <= i < short.len() implies !is_ws(short[i]) by {}
    lemma_words_two(long, n);
    lemma_words_two(short, n);
    assert(long != "quit"@ && long != "q"@ && long != "savelayout"@ && long != "loadlayout"@);
    assert(long[0] != "createwindow"@[0] && long[0] != "customwindow"@[0]);
    assert(short[0] != "createwin"@[0] && short[0] != "customwin"@[0]);
    assert(long != "layouts"@ && long != "createwindow"@ && long != "createwin"@);
    assert(long != "customwindow"@ && long != "customwin"@);
    assert(short != "quit"@ && short != "q"@ && short != "savelayout"@ && short != "loadlayout"@);
    assert(short != "layouts"@ && short != "createwindow"@ && short != "createwin"@);
    assert(short != "customwindow"@ && short != "customwin"@);
}

} // verus!
