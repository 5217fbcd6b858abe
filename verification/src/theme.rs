//! The color palette.
//!
//! It adapts to the terminal on two counts: with true color (`COLORTERM`) exact colors are used,
//! else named and indexed ones, which the terminal shows in its own palette; and a light or dark
//! background (`COLORFGBG`) chooses the background tints, dark where it is unknown.
use vstd::prelude::*;

use crate::style;
use crate::text;
use crate::git::model::FileStatus;
use crate::style::{Color, Style};
use crate::text::{parse, same, split, trim};

verus! {

broadcast use vstd::seq_lib::group_seq_properties;

/// The colors of the screens.
#[derive(Clone, Copy, Debug)]
pub struct Theme {
    pub added: Color,
    pub removed: Color,
    pub modified: Color,
    pub renamed: Color,
    /// Dimmed text: viewed rows and hints.
    pub tertiary: Color,
    pub secondary: Color,
    pub accent: Color,
    pub bg_success: Color,
    pub bg_danger: Color,
    /// The backgrounds of changed characters within a line.
    pub bg_success_strong: Color,
    pub bg_danger_strong: Color,
    /// The background of the selected row.
    pub bg_selected: Color,
    /// Separators.
    pub chrome: Color,
}

/// The palette for a dark background in true color.
pub open spec fn dark_truecolor_v() -> Theme {
    Theme {
        added: Color::Rgb(126, 211, 135),
        removed: Color::Rgb(224, 108, 117),
        modified: Color::Rgb(229, 192, 123),
        renamed: Color::Rgb(97, 175, 239),
        tertiary: Color::Rgb(110, 118, 129),
        secondary: Color::Rgb(150, 158, 169),
        accent: Color::Rgb(198, 160, 246),
        bg_success: Color::Rgb(26, 42, 31),
        bg_danger: Color::Rgb(51, 30, 33),
        bg_success_strong: Color::Rgb(43, 86, 53),
        bg_danger_strong: Color::Rgb(95, 41, 47),
        bg_selected: Color::Rgb(45, 50, 60),
        chrome: Color::Rgb(80, 86, 96),
    }
}

/// The palette for a light background in true color.
pub open spec fn light_truecolor_v() -> Theme {
    Theme {
        added: Color::Rgb(34, 134, 58),
        removed: Color::Rgb(207, 34, 46),
        modified: Color::Rgb(154, 103, 0),
        renamed: Color::Rgb(9, 105, 218),
        tertiary: Color::Rgb(140, 149, 159),
        secondary: Color::Rgb(90, 99, 110),
        accent: Color::Rgb(130, 80, 223),
        bg_success: Color::Rgb(218, 246, 222),
        bg_danger: Color::Rgb(255, 224, 224),
        bg_success_strong: Color::Rgb(171, 230, 181),
        bg_danger_strong: Color::Rgb(255, 188, 188),
        bg_selected: Color::Rgb(221, 226, 233),
        chrome: Color::Rgb(190, 197, 205),
    }
}

/// The palette without true color.
pub open spec fn ansi_v(dark: bool) -> Theme {
    Theme {
        added: Color::Green,
        removed: Color::Red,
        modified: Color::Yellow,
        renamed: Color::Blue,
        tertiary: Color::DarkGray,
        secondary: Color::Gray,
        accent: Color::Magenta,
        bg_success: Color::Indexed(
            if dark {
                22
            } else {
                194
            },
        ),
        bg_danger: Color::Indexed(
            if dark {
                52
            } else {
                224
            },
        ),
        bg_success_strong: Color::Indexed(
            if dark {
                28
            } else {
                157
            },
        ),
        bg_danger_strong: Color::Indexed(
            if dark {
                88
            } else {
                217
            },
        ),
        bg_selected: Color::Indexed(
            if dark {
                237
            } else {
                254
            },
        ),
        chrome: Color::DarkGray,
    }
}

/// Is the background dark, by a `foreground;background` pair of color numbers? Of the sixteen
/// colors that the last field can name, gray (7), white (15) and the light variants of the others
/// (9 to 14) are light; anything else counts as dark.
pub open spec fn is_dark_background_v(colorfgbg: Option<Seq<char>>) -> bool {
    match colorfgbg {
        None => true,
        Some(v) => match text::parse_v(text::trim_v(text::split_v(v, ';').last()), 10, 255) {
            Some(n) => !(n == 7 || 9 <= n <= 15),
            None => true,
        },
    }
}

/// Does the terminal have true color?
pub open spec fn is_truecolor_v(colorterm: Option<Seq<char>>) -> bool {
    colorterm matches Some(v) && (v == "truecolor"@ || v == "24bit"@)
}

/// The palette for a terminal.
pub open spec fn detect_v(colorterm: Option<Seq<char>>, colorfgbg: Option<Seq<char>>) -> Theme {
    if is_truecolor_v(colorterm) {
        if is_dark_background_v(colorfgbg) {
            dark_truecolor_v()
        } else {
            light_truecolor_v()
        }
    } else {
        ansi_v(is_dark_background_v(colorfgbg))
    }
}

/// Is the background dark, by the value of `COLORFGBG`?
pub fn is_dark_background(colorfgbg: &Option<String>) -> (r: bool)
    ensures
        r == is_dark_background_v(colorfgbg.deep_view()),
{
    match colorfgbg {
        None => true,
        Some(v) => {
            let fields = split(v.as_str(), ';');
            proof {
                text::law_split_join(v@, ';');
            }
            let last = &fields[fields.len() - 1];
            assert(fields.deep_view().last() == last@);
            let bg = trim(last.as_str());
            match parse(bg.as_str(), 10, 255) {
                Some(n) => !(n == 7 || (9 <= n && n <= 15)),
                None => true,
            }
        },
    }
}

impl Theme {
    /// The palette for the values of `COLORTERM` and `COLORFGBG`.
    pub fn detect(colorterm: &Option<String>, colorfgbg: &Option<String>) -> (r: Theme)
        ensures
            r == detect_v(colorterm.deep_view(), colorfgbg.deep_view()),
    {
        let truecolor: bool = match colorterm {
            Some(v) => same(v.as_str(), "truecolor") || same(v.as_str(), "24bit"),
            None => false,
        };
        let dark = is_dark_background(colorfgbg);
        if truecolor {
            if dark {
                Theme::dark_truecolor()
            } else {
                Theme::light_truecolor()
            }
        } else {
            Theme::ansi(dark)
        }
    }

    fn dark_truecolor() -> (r: Theme)
        ensures
            r == dark_truecolor_v(),
    {
        Theme {
            added: Color::Rgb(126, 211, 135),
            removed: Color::Rgb(224, 108, 117),
            modified: Color::Rgb(229, 192, 123),
            renamed: Color::Rgb(97, 175, 239),
            tertiary: Color::Rgb(110, 118, 129),
            secondary: Color::Rgb(150, 158, 169),
            accent: Color::Rgb(198, 160, 246),
            bg_success: Color::Rgb(26, 42, 31),
            bg_danger: Color::Rgb(51, 30, 33),
            bg_success_strong: Color::Rgb(43, 86, 53),
            bg_danger_strong: Color::Rgb(95, 41, 47),
            bg_selected: Color::Rgb(45, 50, 60),
            chrome: Color::Rgb(80, 86, 96),
        }
    }

    fn light_truecolor() -> (r: Theme)
        ensures
            r == light_truecolor_v(),
    {
        Theme {
            added: Color::Rgb(34, 134, 58),
            removed: Color::Rgb(207, 34, 46),
            modified: Color::Rgb(154, 103, 0),
            renamed: Color::Rgb(9, 105, 218),
            tertiary: Color::Rgb(140, 149, 159),
            secondary: Color::Rgb(90, 99, 110),
            accent: Color::Rgb(130, 80, 223),
            bg_success: Color::Rgb(218, 246, 222),
            bg_danger: Color::Rgb(255, 224, 224),
            bg_success_strong: Color::Rgb(171, 230, 181),
            bg_danger_strong: Color::Rgb(255, 188, 188),
            bg_selected: Color::Rgb(221, 226, 233),
            chrome: Color::Rgb(190, 197, 205),
        }
    }

    /// Foregrounds by name, which follow the user's palette, and subtle indexed backgrounds.
    fn ansi(dark: bool) -> (r: Theme)
        ensures
            r == ansi_v(dark),
    {
        let (bg_success, bg_danger, bg_success_strong, bg_danger_strong, bg_selected) = if dark {
            (
                Color::Indexed(22),
                Color::Indexed(52),
                Color::Indexed(28),
                Color::Indexed(88),
                Color::Indexed(237),
            )
        } else {
            (
                Color::Indexed(194),
                Color::Indexed(224),
                Color::Indexed(157),
                Color::Indexed(217),
                Color::Indexed(254),
            )
        };
        Theme {
            added: Color::Green,
            removed: Color::Red,
            modified: Color::Yellow,
            renamed: Color::Blue,
            tertiary: Color::DarkGray,
            secondary: Color::Gray,
            accent: Color::Magenta,
            bg_success,
            bg_danger,
            bg_success_strong,
            bg_danger_strong,
            bg_selected,
            chrome: Color::DarkGray,
        }
    }

    /// The style of headings.
    pub open spec fn header_style_v(self) -> Style {
        Style { fg: Some(self.accent), bg: None, bold: true, italic: false }
    }

    /// The color for a highlight name, where it has one.
    pub open spec fn syntax_color_v(self, name: Seq<char>) -> Option<Color> {
        let exact = self.accent is Rgb;
        if name == "keyword"@ {
            Some(
                if exact {
                    Color::Rgb(198, 120, 221)
                } else {
                    Color::Magenta
                },
            )
        } else if name == "function"@ || name == "constructor"@ {
            Some(
                if exact {
                    Color::Rgb(97, 175, 239)
                } else {
                    Color::Blue
                },
            )
        } else if name == "string"@ || name == "string.special"@ {
            Some(
                if exact {
                    Color::Rgb(152, 195, 121)
                } else {
                    Color::Green
                },
            )
        } else if name == "comment"@ {
            Some(self.tertiary)
        } else if name == "type"@ {
            Some(
                if exact {
                    Color::Rgb(229, 192, 123)
                } else {
                    Color::Yellow
                },
            )
        } else if name == "number"@ || name == "constant"@ {
            Some(
                if exact {
                    Color::Rgb(209, 154, 102)
                } else {
                    Color::Cyan
                },
            )
        } else if name == "operator"@ || name == "punctuation"@ {
            Some(self.secondary)
        } else if name == "tag"@ || name == "attribute"@ {
            Some(
                if exact {
                    Color::Rgb(224, 108, 117)
                } else {
                    Color::Red
                },
            )
        } else if name == "property"@ || name == "module"@ || name == "label"@ || name
            == "escape"@ {
            Some(
                if exact {
                    Color::Rgb(86, 182, 194)
                } else {
                    Color::Cyan
                },
            )
        } else {
            None
        }
    }

    /// The style for a highlight name.
    pub open spec fn syntax_style_v(self, name: Seq<char>) -> Style {
        match self.syntax_color_v(name) {
            Some(c) => Style { fg: Some(c), bg: None, bold: false, italic: name == "comment"@ },
            None => style::plain_v(),
        }
    }

    /// The color for a file's status.
    pub open spec fn status_color_v(self, s: FileStatus) -> Color {
        match s {
            FileStatus::Added => self.added,
            FileStatus::Deleted => self.removed,
            FileStatus::Modified => self.modified,
            FileStatus::Renamed => self.renamed,
            FileStatus::Copied => self.renamed,
        }
    }

    /// The style for a file's status.
    pub open spec fn status_style_v(self, s: FileStatus) -> Style {
        Style { fg: Some(self.status_color_v(s)), bg: None, bold: true, italic: false }
    }

    pub fn added_style(&self) -> (r: Style)
        ensures
            r == style::fg_v(self.added),
    {
        Style::with(self.added)
    }

    pub fn removed_style(&self) -> (r: Style)
        ensures
            r == style::fg_v(self.removed),
    {
        Style::with(self.removed)
    }

    pub fn dim(&self) -> (r: Style)
        ensures
            r == style::fg_v(self.tertiary),
    {
        Style::with(self.tertiary)
    }

    pub fn chrome_style(&self) -> (r: Style)
        ensures
            r == style::fg_v(self.chrome),
    {
        Style::with(self.chrome)
    }

    pub fn header_style(&self) -> (r: Style)
        ensures
            r == self.header_style_v(),
    {
        Style::with(self.accent).bold()
    }

    /// The style for a highlight name; unknown names have no color.
    pub fn syntax_style(&self, name: &str) -> (r: Style)
        ensures
            r == self.syntax_style_v(name@),
    {
        let exact: bool = matches!(self.accent, Color::Rgb(..));
        let color: Color = if same(name, "keyword") {
            if exact {
                Color::Rgb(198, 120, 221)
            } else {
                Color::Magenta
            }
        } else if same(name, "function") || same(name, "constructor") {
            if exact {
                Color::Rgb(97, 175, 239)
            } else {
                Color::Blue
            }
        } else if same(name, "string") || same(name, "string.special") {
            if exact {
                Color::Rgb(152, 195, 121)
            } else {
                Color::Green
            }
        } else if same(name, "comment") {
            self.tertiary
        } else if same(name, "type") {
            if exact {
                Color::Rgb(229, 192, 123)
            } else {
                Color::Yellow
            }
        } else if same(name, "number") || same(name, "constant") {
            if exact {
                Color::Rgb(209, 154, 102)
            } else {
                Color::Cyan
            }
        } else if same(name, "operator") || same(name, "punctuation") {
            self.secondary
        } else if same(name, "tag") || same(name, "attribute") {
            if exact {
                Color::Rgb(224, 108, 117)
            } else {
                Color::Red
            }
        } else if same(name, "property") || same(name, "module") || same(name, "label") || same(
            name,
            "escape",
        ) {
            if exact {
                Color::Rgb(86, 182, 194)
            } else {
                Color::Cyan
            }
        } else {
            return Style::plain();
        };
        Style { fg: Some(color), bg: None, bold: false, italic: same(name, "comment") }
    }

    pub fn status_style(&self, s: FileStatus) -> (r: Style)
        ensures
            r == self.status_style_v(s),
    {
        let c: Color = match s {
            FileStatus::Added => self.added,
            FileStatus::Deleted => self.removed,
            FileStatus::Modified => self.modified,
            FileStatus::Renamed => self.renamed,
            FileStatus::Copied => self.renamed,
        };
        Style::with(c).bold()
    }
}

// ---- What the colours tell apart ----

/// Whatever the terminal, what is added and what is removed look different, and what changed within
/// a line stands out from the line.
pub proof fn law_colors_differ(colorterm: Option<Seq<char>>, colorfgbg: Option<Seq<char>>)
    ensures
        ({
            let t = detect_v(colorterm, colorfgbg);
            &&& t.added != t.removed && t.added != t.modified && t.removed != t.modified
            &&& t.renamed != t.added && t.renamed != t.removed && t.renamed != t.modified
            &&& t.bg_success != t.bg_danger && t.bg_success_strong != t.bg_danger_strong
            &&& t.bg_success != t.bg_success_strong && t.bg_danger != t.bg_danger_strong
            &&& t.bg_selected != t.bg_success && t.bg_selected != t.bg_danger
            &&& t.accent is Rgb <==> (colorterm matches Some(v) && (v == "truecolor"@ || v
                == "24bit"@))
        }),
{
}

/// The colour of a file's status.
pub proof fn law_status_colors(t: Theme, s: FileStatus)
    ensures
        t.status_style_v(s).bold,
        t.status_style_v(s).fg == Some(
            match s {
                FileStatus::Added => t.added,
                FileStatus::Deleted => t.removed,
                FileStatus::Modified => t.modified,
                FileStatus::Renamed | FileStatus::Copied => t.renamed,
            },
        ),
{
}

/// What follows the last separator is the last part.
proof fn lemma_last_part(a: Seq<char>, b: Seq<char>, c: char)
    requires
        !b.contains(c),
    ensures
        text::split_v(a.push(c) + b, c).last() == b,
        text::split_v(b, c).last() == b,
    decreases a.len(),
{
    text::lemma_find_char(b, c);
    if text::find_char_v(b, c) < b.len() {
        assert(b[text::find_char_v(b, c)] == c);
        assert(b.contains(c));
    }
    assert(text::split_v(b, c).last() == b);
    let s = a.push(c) + b;
    text::lemma_find_char(s, c);
    let k = text::find_char_v(s, c);
    assert(s[a.len() as int] == c);
    assert(k <= a.len());
    let rest = s.skip(k + 1);
    if k == a.len() {
        assert(rest =~= b);
    } else {
        let a2 = a.skip(k + 1);
        assert(rest =~= a2.push(c) + b);
        lemma_last_part(a2, b, c);
    }
    text::law_split_join(rest, c);
    assert(text::split_v(s, c) == seq![s.take(k)] + text::split_v(rest, c));
}

/// The background is dark unless the terminal says otherwise: by the number behind the last
/// semicolon, where seven and nine to fifteen are light.
pub proof fn law_background(front: Seq<char>, n: nat)
    requires
        n <= 255,
    ensures
        is_dark_background_v(None),
        is_dark_background_v(Some(front.push(';') + text::decimal_v(n))) <==> !(n == 7 || 9 <= n
            <= 15),
{
    let d = text::decimal_v(n);
    text::law_decimal(n);
    assert(!d.contains(';')) by {
        if d.contains(';') {
            let k = choose|k: int| 0 <= k < d.len() && d[k] == ';';
            assert('0' <= d[k] <= '9');
        }
    }
    lemma_last_part(front, d, ';');
    assert('0' <= d[0] <= '9');
    assert('0' <= d[d.len() - 1] <= '9');
    text::law_trim(Seq::empty(), d, Seq::empty());
    assert(Seq::<char>::empty() + d + Seq::<char>::empty() =~= d);
}

} // verus!
