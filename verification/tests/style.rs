use vello::schema::Tier;
use vello::style::Style;

#[test]
fn colors_need_a_terminal_and_no_objection() {
    assert_eq!(Style::new(true, false).green("x"), "\x1b[32mx\x1b[0m");
    assert_eq!(Style::new(true, true).green("x"), "x");
    assert_eq!(Style::new(false, false).green("x"), "x");
}

#[test]
fn every_color() {
    let st = Style::new(true, false);
    assert_eq!(st.dim("x"), "\x1b[2mx\x1b[0m");
    assert_eq!(st.bold("x"), "\x1b[1mx\x1b[0m");
    assert_eq!(st.yellow("x"), "\x1b[33mx\x1b[0m");
    assert_eq!(st.red("x"), "\x1b[31mx\x1b[0m");
    assert_eq!(st.cyan("x"), "\x1b[36mx\x1b[0m");
    assert_eq!(st.tier(Tier::S), "\x1b[1;32m[S]\x1b[0m");
    assert_eq!(st.tier(Tier::A), "\x1b[32m[A]\x1b[0m");
    assert_eq!(st.tier(Tier::B), "\x1b[36m[B]\x1b[0m");
    assert_eq!(st.tier(Tier::C), "\x1b[33m[C]\x1b[0m");
    assert_eq!(st.tier(Tier::D), "\x1b[2;31m[D]\x1b[0m");
}

#[test]
fn plain_text_stays_as_it_is() {
    let st = Style::new(false, false);
    assert_eq!(st.dim("x"), "x");
    assert_eq!(st.bold("x"), "x");
    assert_eq!(st.yellow("x"), "x");
    assert_eq!(st.red("x"), "x");
    assert_eq!(st.cyan("x"), "x");
    assert_eq!(st.tier(Tier::D), "[D]");
}
