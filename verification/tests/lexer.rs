use turboterm::lexer::{
    apply_styles, parse_hex, parse_rgb, resolve_compound, resolve_token, visible_width,
};

#[test]
fn passthrough_plain_text() {
    assert_eq!(apply_styles("hello world"), "hello world");
    assert_eq!(apply_styles(""), "");
    assert_eq!(apply_styles("a]b c!"), "a]b c!");
    assert_eq!(apply_styles("h\u{e9}llo"), "h\u{e9}llo");
}

#[test]
fn balanced_round_trip() {
    assert_eq!(apply_styles("[b]x[/b]"), "\x1b[1mx\x1b[0m");
}

#[test]
fn compound_open_and_close() {
    assert_eq!(apply_styles("[b u]x[/b u]"), "\x1b[1m\x1b[4mx\x1b[0m");
}

#[test]
fn compound_close_must_match_exactly() {
    // The stack holds "b u", not "b": the mismatched close stays literal
    // and the still-open tag yields one final reset.
    assert_eq!(apply_styles("[b u]x[/b]"), "\x1b[1m\x1b[4mx[/b]\x1b[0m");
    assert_eq!(apply_styles("[b u]x[/u]"), "\x1b[1m\x1b[4mx[/u]\x1b[0m");
}

#[test]
fn nested_implicit_close() {
    assert_eq!(
        apply_styles("[b][u]x[/b]y[/u]"),
        "\x1b[1m\x1b[4mx\x1b[0my[/u]"
    );
}

#[test]
fn nested_same_tag_replays_remaining() {
    assert_eq!(
        apply_styles("[b][b]x[/b]y[/b]"),
        "\x1b[1m\x1b[1mx\x1b[0m\x1b[1my\x1b[0m"
    );
}

#[test]
fn unknown_tag_is_literal() {
    assert_eq!(apply_styles("[foo]text[/foo]"), "[foo]text[/foo]");
}

#[test]
fn out_of_range_color_is_literal() {
    assert_eq!(
        apply_styles("[color(256)]x[/color(256)]"),
        "[color(256)]x[/color(256)]"
    );
    assert_eq!(
        apply_styles("[color(-1)]x[/color(-1)]"),
        "[color(-1)]x[/color(-1)]"
    );
}

#[test]
fn width_is_blind_to_escapes() {
    assert_eq!(visible_width(&apply_styles("[red]ab[/red]")), 2);
}

#[test]
fn bracket_without_tag_start_is_literal() {
    assert_eq!(apply_styles("["), "[");
    assert_eq!(apply_styles("x["), "x[");
    assert_eq!(apply_styles("[1]"), "[1]");
    assert_eq!(apply_styles("a[ b]"), "a[ b]");
    assert_eq!(apply_styles("[]"), "[]");
}

#[test]
fn unclosed_tag_gets_final_reset() {
    assert_eq!(apply_styles("[b]unclosed"), "\x1b[1munclosed\x1b[0m");
    // A tag still being collected at the end of input is dropped; the open
    // style on the stack still yields its reset.
    assert_eq!(apply_styles("[b]text[/"), "\x1b[1mtext\x1b[0m");
}

#[test]
fn bracket_inside_tag() {
    // A second `[` before a tag-start character restarts tag collection,
    // discarding what was collected.
    assert_eq!(apply_styles("[b[x]"), "[x]");
    // A `[` not followed by a tag start is emitted literally, even while a
    // tag is being collected.
    assert_eq!(apply_styles("[b[ ]"), "[\x1b[1m\x1b[0m");
}

#[test]
fn static_keywords() {
    assert_eq!(resolve_token("b").as_deref(), Some("\x1b[1m"));
    assert_eq!(resolve_token("bold").as_deref(), Some("\x1b[1m"));
    assert_eq!(resolve_token("dim").as_deref(), Some("\x1b[2m"));
    assert_eq!(resolve_token("i").as_deref(), Some("\x1b[3m"));
    assert_eq!(resolve_token("italic").as_deref(), Some("\x1b[3m"));
    assert_eq!(resolve_token("u").as_deref(), Some("\x1b[4m"));
    assert_eq!(resolve_token("underline").as_deref(), Some("\x1b[4m"));
    assert_eq!(resolve_token("blink").as_deref(), Some("\x1b[5m"));
    assert_eq!(resolve_token("inverse").as_deref(), Some("\x1b[7m"));
    assert_eq!(resolve_token("reverse").as_deref(), Some("\x1b[7m"));
    assert_eq!(resolve_token("hidden").as_deref(), Some("\x1b[8m"));
    assert_eq!(resolve_token("s").as_deref(), Some("\x1b[9m"));
    assert_eq!(resolve_token("strike").as_deref(), Some("\x1b[9m"));
    assert_eq!(resolve_token("strikethrough").as_deref(), Some("\x1b[9m"));
    assert_eq!(resolve_token("overline").as_deref(), Some("\x1b[53m"));
    assert_eq!(resolve_token("black").as_deref(), Some("\x1b[30m"));
    assert_eq!(resolve_token("red").as_deref(), Some("\x1b[31m"));
    assert_eq!(resolve_token("green").as_deref(), Some("\x1b[32m"));
    assert_eq!(resolve_token("yellow").as_deref(), Some("\x1b[33m"));
    assert_eq!(resolve_token("blue").as_deref(), Some("\x1b[34m"));
    assert_eq!(resolve_token("magenta").as_deref(), Some("\x1b[35m"));
    assert_eq!(resolve_token("cyan").as_deref(), Some("\x1b[36m"));
    assert_eq!(resolve_token("white").as_deref(), Some("\x1b[37m"));
    assert_eq!(resolve_token("bright_black").as_deref(), Some("\x1b[90m"));
    assert_eq!(resolve_token("grey").as_deref(), Some("\x1b[90m"));
    assert_eq!(resolve_token("gray").as_deref(), Some("\x1b[90m"));
    assert_eq!(resolve_token("bright_red").as_deref(), Some("\x1b[91m"));
    assert_eq!(resolve_token("bright_green").as_deref(), Some("\x1b[92m"));
    assert_eq!(resolve_token("bright_yellow").as_deref(), Some("\x1b[93m"));
    assert_eq!(resolve_token("bright_blue").as_deref(), Some("\x1b[94m"));
    assert_eq!(resolve_token("bright_magenta").as_deref(), Some("\x1b[95m"));
    assert_eq!(resolve_token("bright_cyan").as_deref(), Some("\x1b[96m"));
    assert_eq!(resolve_token("bright_white").as_deref(), Some("\x1b[97m"));
    assert_eq!(resolve_token("on_black").as_deref(), Some("\x1b[40m"));
    assert_eq!(resolve_token("on_red").as_deref(), Some("\x1b[41m"));
    assert_eq!(resolve_token("on_green").as_deref(), Some("\x1b[42m"));
    assert_eq!(resolve_token("on_yellow").as_deref(), Some("\x1b[43m"));
    assert_eq!(resolve_token("on_blue").as_deref(), Some("\x1b[44m"));
    assert_eq!(resolve_token("on_magenta").as_deref(), Some("\x1b[45m"));
    assert_eq!(resolve_token("on_cyan").as_deref(), Some("\x1b[46m"));
    assert_eq!(resolve_token("on_white").as_deref(), Some("\x1b[47m"));
    assert_eq!(resolve_token("on_bright_black").as_deref(), Some("\x1b[100m"));
    assert_eq!(resolve_token("on_grey").as_deref(), Some("\x1b[100m"));
    assert_eq!(resolve_token("on_gray").as_deref(), Some("\x1b[100m"));
    assert_eq!(resolve_token("on_bright_red").as_deref(), Some("\x1b[101m"));
    assert_eq!(resolve_token("on_bright_green").as_deref(), Some("\x1b[102m"));
    assert_eq!(resolve_token("on_bright_yellow").as_deref(), Some("\x1b[103m"));
    assert_eq!(resolve_token("on_bright_blue").as_deref(), Some("\x1b[104m"));
    assert_eq!(resolve_token("on_bright_magenta").as_deref(), Some("\x1b[105m"));
    assert_eq!(resolve_token("on_bright_cyan").as_deref(), Some("\x1b[106m"));
    assert_eq!(resolve_token("on_bright_white").as_deref(), Some("\x1b[107m"));
}

#[test]
fn keywords_are_case_sensitive() {
    assert_eq!(resolve_token("Bold"), None);
    assert_eq!(resolve_token("B"), None);
    assert_eq!(resolve_token("RED"), None);
}

#[test]
fn color_256_forms() {
    assert_eq!(resolve_token("color(5)").as_deref(), Some("\x1b[38;5;5m"));
    assert_eq!(resolve_token("color(255)").as_deref(), Some("\x1b[38;5;255m"));
    assert_eq!(resolve_token("color(0)").as_deref(), Some("\x1b[38;5;0m"));
    assert_eq!(resolve_token("on_color(17)").as_deref(), Some("\x1b[48;5;17m"));
    assert_eq!(resolve_token("color( 12 )").as_deref(), Some("\x1b[38;5;12m"));
    assert_eq!(resolve_token("color(+7)").as_deref(), Some("\x1b[38;5;7m"));
    assert_eq!(resolve_token("color(007)").as_deref(), Some("\x1b[38;5;7m"));
    assert_eq!(resolve_token("color(256)"), None);
    assert_eq!(resolve_token("color(-1)"), None);
    assert_eq!(resolve_token("color()"), None);
    assert_eq!(resolve_token("color(1x)"), None);
    assert_eq!(resolve_token("color(5"), None);
}

#[test]
fn rgb_forms() {
    assert_eq!(
        resolve_token("rgb(1,2,3)").as_deref(),
        Some("\x1b[38;2;1;2;3m")
    );
    assert_eq!(
        resolve_token("rgb( 10 , 20 , 30 )").as_deref(),
        Some("\x1b[38;2;10;20;30m")
    );
    assert_eq!(
        resolve_token("on_rgb(0,0,0)").as_deref(),
        Some("\x1b[48;2;0;0;0m")
    );
    assert_eq!(resolve_token("rgb(1,2)"), None);
    assert_eq!(resolve_token("rgb(1,2,3,4)"), None);
    assert_eq!(resolve_token("rgb(256,0,0)"), None);
    assert_eq!(resolve_token("rgb(1,,3)"), None);
}

#[test]
fn parse_rgb_directly() {
    assert_eq!(parse_rgb("1,2,3", false).as_deref(), Some("\x1b[38;2;1;2;3m"));
    assert_eq!(parse_rgb("1,2,3", true).as_deref(), Some("\x1b[48;2;1;2;3m"));
    assert_eq!(parse_rgb("1,2", false), None);
    assert_eq!(parse_rgb("", false), None);
}

#[test]
fn hex_forms() {
    assert_eq!(
        resolve_token("#ff00aa").as_deref(),
        Some("\x1b[38;2;255;0;170m")
    );
    assert_eq!(
        resolve_token("#FF00AA").as_deref(),
        Some("\x1b[38;2;255;0;170m")
    );
    assert_eq!(
        resolve_token("on_#010203").as_deref(),
        Some("\x1b[48;2;1;2;3m")
    );
    assert_eq!(resolve_token("#12345"), None);
    assert_eq!(resolve_token("#1234567"), None);
    assert_eq!(resolve_token("#12345g"), None);
}

#[test]
fn parse_hex_directly() {
    assert_eq!(parse_hex("ff00aa", false).as_deref(), Some("\x1b[38;2;255;0;170m"));
    assert_eq!(parse_hex("000000", true).as_deref(), Some("\x1b[48;2;0;0;0m"));
    assert_eq!(parse_hex("xyzxyz", false), None);
    assert_eq!(parse_hex("abc", false), None);
}

#[test]
fn compound_resolution() {
    assert_eq!(resolve_compound("b u").as_deref(), Some("\x1b[1m\x1b[4m"));
    assert_eq!(resolve_compound("b  u").as_deref(), Some("\x1b[1m\x1b[4m"));
    assert_eq!(
        resolve_compound("red on_white").as_deref(),
        Some("\x1b[31m\x1b[47m")
    );
    assert_eq!(resolve_compound("b\tu").as_deref(), Some("\x1b[1m\x1b[4m"));
    assert_eq!(resolve_compound("").as_deref(), Some(""));
    assert_eq!(resolve_compound("b foo"), None);
    assert_eq!(resolve_compound("foo"), None);
}

#[test]
fn visible_width_strips_escapes() {
    assert_eq!(visible_width(""), 0);
    assert_eq!(visible_width("abc"), 3);
    assert_eq!(visible_width("\x1b[31mab\x1b[0m"), 2);
    assert_eq!(visible_width("\x1b[1m\x1b[4mx\x1b[0m"), 1);
    assert_eq!(visible_width("\x1b[31mabc"), 3);
    // A lone escape byte is not a sequence start and still counts.
    assert_eq!(visible_width("\x1b"), 1);
    // An unterminated sequence swallows the rest.
    assert_eq!(visible_width("\x1b[31"), 0);
    assert_eq!(visible_width("h\u{e9}\u{e9}"), 3);
}

#[test]
fn mixed_markup_and_literal_brackets() {
    assert_eq!(
        apply_styles("[red]a[/red] [b]c[/b]"),
        "\x1b[31ma\x1b[0m \x1b[1mc\x1b[0m"
    );
    assert_eq!(
        apply_styles("[#102030]z[/#102030]"),
        "\x1b[38;2;16;32;48mz\x1b[0m"
    );
}
