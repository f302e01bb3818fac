use carta::styling::strip_styling;

#[test]
fn strips_font_tags_but_keeps_italics() {
    let input = "<font face=\"sans-serif\" size=\"71\">- You'll be <i>late</i>, you know?</font>";
    assert_eq!(strip_styling(input), "- You'll be <i>late</i>, you know?");
}

#[test]
fn strips_ass_positioning() {
    assert_eq!(strip_styling("{\\an8}Street sign"), "Street sign");
}

#[test]
fn leaves_plain_text_with_angle_brackets_alone() {
    let input = "5 < 7 and the result > 0";
    assert_eq!(strip_styling(input), input);
}

#[test]
fn font_tags_match_in_any_case_and_closing_form() {
    assert_eq!(strip_styling("<FONT color=red>Hi</Font>"), "Hi");
    assert_eq!(strip_styling("</font >x"), "x");
    assert_eq!(strip_styling("</ font >x"), "x");
    assert_eq!(strip_styling("< /font >x"), "< /font >x");
    assert_eq!(strip_styling("<fontx>y</fontx>"), "y");
}

#[test]
fn unclosed_tags_and_blocks_are_kept() {
    assert_eq!(strip_styling("<font size=3"), "<font size=3");
    assert_eq!(strip_styling("{\\an8 no end"), "{\\an8 no end");
    assert_eq!(strip_styling("{no backslash}"), "{no backslash}");
}

#[test]
fn only_characters_are_removed() {
    let input = "a<font>b{\\pos(1,2)}c</font>d";
    let out = strip_styling(input);
    assert_eq!(out, "abcd");
    assert!(out.len() <= input.len());
}

#[test]
fn plain_text_is_untouched() {
    let input = "Just a line, with ünïcödé and > signs.";
    assert_eq!(strip_styling(input), input);
    assert_eq!(strip_styling(""), "");
}

#[test]
fn bold_and_underline_survive() {
    assert_eq!(strip_styling("<b>x</b><u>y</u>"), "<b>x</b><u>y</u>");
}

#[test]
fn only_italic_bold_and_underline_survive() {
    assert_eq!(strip_styling("<s>gone</s>"), "gone");
    assert_eq!(strip_styling("a<br>b<span class=\"x\">c</span>"), "abc");
    assert_eq!(strip_styling("<I>x</I> <B>y</B> <U>z</U>"), "<I>x</I> <B>y</B> <U>z</U>");
    assert_eq!(strip_styling("<i class=x>w</i>"), "<i class=x>w</i>");
    assert_eq!(strip_styling("<ib>w</ib>"), "w");
}

#[test]
fn brackets_that_open_no_tag_are_text() {
    assert_eq!(strip_styling("a <3 b >"), "a <3 b >");
    assert_eq!(strip_styling("x << y >> z"), "x << y >> z");
}

#[test]
fn spaced_font_tags_go_but_spaced_brackets_stay() {
    assert_eq!(strip_styling("</ font >x"), "x");
    assert_eq!(strip_styling("a < b and c > d"), "a < b and c > d");
}
