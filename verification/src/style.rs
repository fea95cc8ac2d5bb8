//! ANSI colors, shared by commands and diagnostics.
//!
//! Plain text when the output is not a terminal or `NO_COLOR` is set, so that
//! what is piped to files or a build log is clean.
use vstd::prelude::*;
use crate::schema::Tier;
use crate::text;

verus! {

/// Whether output is colored.
#[derive(Clone, Copy)]
pub struct Style {
    enabled: bool,
}

/// `s` between an escape sequence and the one that ends it.
pub open spec fn escaped(code: Seq<char>, s: Seq<char>) -> Seq<char> {
    code + s + "\x1b[0m"@
}

/// `s`, colored where colors are on.
pub open spec fn colored(on: bool, code: Seq<char>, s: Seq<char>) -> Seq<char> {
    if on {
        escaped(code, s)
    } else {
        s
    }
}

/// The escape sequence for a tier.
pub open spec fn tier_code(t: Tier) -> Seq<char> {
    match t {
        Tier::S => "\x1b[1;32m"@,
        Tier::A => "\x1b[32m"@,
        Tier::B => "\x1b[36m"@,
        Tier::C => "\x1b[33m"@,
        Tier::D => "\x1b[2;31m"@,
    }
}

pub open spec fn dim_text(on: bool, s: Seq<char>) -> Seq<char> {
    colored(on, "\x1b[2m"@, s)
}

pub open spec fn bold_text(on: bool, s: Seq<char>) -> Seq<char> {
    colored(on, "\x1b[1m"@, s)
}

pub open spec fn green_text(on: bool, s: Seq<char>) -> Seq<char> {
    colored(on, "\x1b[32m"@, s)
}

pub open spec fn yellow_text(on: bool, s: Seq<char>) -> Seq<char> {
    colored(on, "\x1b[33m"@, s)
}

pub open spec fn red_text(on: bool, s: Seq<char>) -> Seq<char> {
    colored(on, "\x1b[31m"@, s)
}

pub open spec fn cyan_text(on: bool, s: Seq<char>) -> Seq<char> {
    colored(on, "\x1b[36m"@, s)
}

pub open spec fn tier_text(on: bool, t: Tier) -> Seq<char> {
    colored(on, tier_code(t), "["@ + t.spec_label() + "]"@)
}

/// Without colors every text is left as it is.
pub proof fn law_plain(s: Seq<char>, t: Tier)
    ensures
        dim_text(false, s) == s,
        bold_text(false, s) == s,
        green_text(false, s) == s,
        yellow_text(false, s) == s,
        red_text(false, s) == s,
        cyan_text(false, s) == s,
        tier_text(false, t) == "["@ + t.spec_label() + "]"@,
{
}

impl Style {
    /// Whether colors are on.
    pub closed spec fn on(self) -> bool {
        self.enabled
    }

    /// Colors are on when the output is a terminal, unless `NO_COLOR` is set.
    pub fn new(is_terminal: bool, no_color: bool) -> (r: Style)
        ensures
            r.on() == (is_terminal && !no_color),
    {
        Style { enabled: is_terminal && !no_color }
    }

    fn paint(&self, code: &str, s: &str) -> (r: String)
        ensures
            r@ == colored(self.on(), code@, s@),
    {
        if self.enabled {
            text::cat3(code, s, "\x1b[0m")
        } else {
            s.to_owned()
        }
    }

    pub fn dim(&self, s: &str) -> (r: String)
        ensures
            r@ == dim_text(self.on(), s@),
    {
        self.paint("\x1b[2m", s)
    }

    pub fn bold(&self, s: &str) -> (r: String)
        ensures
            r@ == bold_text(self.on(), s@),
    {
        self.paint("\x1b[1m", s)
    }

    pub fn green(&self, s: &str) -> (r: String)
        ensures
            r@ == green_text(self.on(), s@),
    {
        self.paint("\x1b[32m", s)
    }

    pub fn yellow(&self, s: &str) -> (r: String)
        ensures
            r@ == yellow_text(self.on(), s@),
    {
        self.paint("\x1b[33m", s)
    }

    pub fn red(&self, s: &str) -> (r: String)
        ensures
            r@ == red_text(self.on(), s@),
    {
        self.paint("\x1b[31m", s)
    }

    pub fn cyan(&self, s: &str) -> (r: String)
        ensures
            r@ == cyan_text(self.on(), s@),
    {
        self.paint("\x1b[36m", s)
    }

    /// The tier in brackets.
    pub fn tier(&self, t: Tier) -> (r: String)
        ensures
            r@ == tier_text(self.on(), t),
    {
        let label: String = text::cat3("[", t.label(), "]");
        match t {
            Tier::S => self.paint("\x1b[1;32m", &label),
            Tier::A => self.paint("\x1b[32m", &label),
            Tier::B => self.paint("\x1b[36m", &label),
            Tier::C => self.paint("\x1b[33m", &label),
            Tier::D => self.paint("\x1b[2;31m", &label),
        }
    }
}

/// With colors a text stands between the code of its color and the one that ends it.
pub proof fn law_colored(s: Seq<char>, t: Tier)
    ensures
        dim_text(true, s) == "\x1b[2m"@ + s + "\x1b[0m"@,
        bold_text(true, s) == "\x1b[1m"@ + s + "\x1b[0m"@,
        green_text(true, s) == "\x1b[32m"@ + s + "\x1b[0m"@,
        yellow_text(true, s) == "\x1b[33m"@ + s + "\x1b[0m"@,
        red_text(true, s) == "\x1b[31m"@ + s + "\x1b[0m"@,
        cyan_text(true, s) == "\x1b[36m"@ + s + "\x1b[0m"@,
        tier_text(true, Tier::S) == "\x1b[1;32m"@ + ("["@ + "S"@ + "]"@) + "\x1b[0m"@,
        tier_text(true, Tier::A) == "\x1b[32m"@ + ("["@ + "A"@ + "]"@) + "\x1b[0m"@,
        tier_text(true, Tier::B) == "\x1b[36m"@ + ("["@ + "B"@ + "]"@) + "\x1b[0m"@,
        tier_text(true, Tier::C) == "\x1b[33m"@ + ("["@ + "C"@ + "]"@) + "\x1b[0m"@,
        tier_text(true, Tier::D) == "\x1b[2;31m"@ + ("["@ + "D"@ + "]"@) + "\x1b[0m"@,
{
}

} // verus!
