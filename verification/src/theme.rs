//! The screens of the player and its colour themes, with the labels that
//! the settings file stores.
use vstd::prelude::*;
use crate::settings::{clean_value, read_spec, renders, theme_key, law_theme_write_read};
use crate::text::str_eq;

verus! {

broadcast use vstd::string::group_string_axioms;

#[derive(Debug, Clone, Copy, PartialEq, Eq, Structural)]
pub enum Screen {
    Library,
    Settings,
}

/// The colour themes on offer.
#[derive(Debug, Clone, Copy, PartialEq, Eq, Structural)]
pub enum AppTheme {
    Nord,
    CatppuccinMacchiato,
    CatppuccinLatte,
    TokyoNight,
    AyuDark,
}

/// The themes in the order that the settings list shows them.
pub open spec fn all_themes() -> Seq<AppTheme> {
    seq![
        AppTheme::Nord,
        AppTheme::CatppuccinMacchiato,
        AppTheme::CatppuccinLatte,
        AppTheme::TokyoNight,
        AppTheme::AyuDark,
    ]
}

impl AppTheme {
    /// The name of a theme as shown and as stored.
    pub open spec fn label_spec(self) -> Seq<char> {
        match self {
            AppTheme::Nord => "Nord"@,
            AppTheme::CatppuccinMacchiato => "Catppuccin Macchiato"@,
            AppTheme::TokyoNight => "Tokyo Night"@,
            AppTheme::CatppuccinLatte => "Catppuccin Latte"@,
            AppTheme::AyuDark => "Ayu Dark"@,
        }
    }

    /// The theme of a label: the first theme of `all_themes` with it.
    pub open spec fn from_label_spec(s: Seq<char>) -> Option<AppTheme> {
        if exists|i: int| 0 <= i < 5 && (#[trigger] all_themes()[i]).label_spec() == s {
            Some(
                all_themes()[choose|i: int|
                    0 <= i < 5 && (#[trigger] all_themes()[i]).label_spec() == s && forall|j: int|
                        0 <= j < i ==> all_themes()[j].label_spec() != s],
            )
        } else {
            None
        }
    }

    pub fn label(&self) -> (r: &'static str)
        ensures
            r@ == self.label_spec(),
    {
        match self {
            AppTheme::Nord => "Nord",
            AppTheme::CatppuccinMacchiato => "Catppuccin Macchiato",
            AppTheme::TokyoNight => "Tokyo Night",
            AppTheme::CatppuccinLatte => "Catppuccin Latte",
            AppTheme::AyuDark => "Ayu Dark",
        }
    }

    /// Every theme, each once.
    pub fn all() -> (r: Vec<AppTheme>)
        ensures
            r@ == all_themes(),
    {
        let r = vec![
            AppTheme::Nord,
            AppTheme::CatppuccinMacchiato,
            AppTheme::CatppuccinLatte,
            AppTheme::TokyoNight,
            AppTheme::AyuDark,
        ];
        assert(r@ =~= all_themes());
        r
    }

    /// The theme whose label is `s`, if any.
    pub fn from_label(s: &str) -> (r: Option<AppTheme>)
        ensures
            r == AppTheme::from_label_spec(s@),
    {
        let all = AppTheme::all();
        let mut i: usize = 0;
        while i < all.len()
            invariant
                all@ == all_themes(),
                i <= all.len(),
                forall|j: int| 0 <= j < i ==> all_themes()[j].label_spec() != s@,
            decreases all.len() - i,
        {
            if str_eq(all[i].label(), s) {
                proof {
                    let w = choose|w: int|
                        0 <= w < 5 && (#[trigger] all_themes()[w]).label_spec() == s@ && forall|j: int|
                            0 <= j < w ==> all_themes()[j].label_spec() != s@;
                    assert(0 <= i < 5 && (#[trigger] all_themes()[i as int]).label_spec() == s@);
                    assert(w == i);
                }
                return Some(all[i]);
            }
            i += 1;
        }
        None
    }
}

proof fn lemma_labels()
    ensures
        "Nord"@ =~= seq!['N', 'o', 'r', 'd'],
        "Catppuccin Macchiato"@.len() == 20,
        "Catppuccin Macchiato"@[0] == 'C',
        "Catppuccin Macchiato"@[11] == 'M',
        "Catppuccin Macchiato"@[19] == 'o',
        "Tokyo Night"@.len() == 11,
        "Tokyo Night"@[0] == 'T',
        "Tokyo Night"@[10] == 't',
        "Catppuccin Latte"@.len() == 16,
        "Catppuccin Latte"@[0] == 'C',
        "Catppuccin Latte"@[11] == 'L',
        "Catppuccin Latte"@[15] == 'e',
        "Ayu Dark"@.len() == 8,
        "Ayu Dark"@[0] == 'A',
        "Ayu Dark"@[7] == 'k',
        forall|t: AppTheme| !(#[trigger] t.label_spec()).contains('\n'),
{
    reveal_strlit("Nord");
    reveal_strlit("Catppuccin Macchiato");
    reveal_strlit("Tokyo Night");
    reveal_strlit("Catppuccin Latte");
    reveal_strlit("Ayu Dark");
    assert forall|t: AppTheme| !(#[trigger] t.label_spec()).contains('\n') by {
        let l = t.label_spec();
        if l.contains('\n') {
            let j = choose|j: int| 0 <= j < l.len() && l[j] == '\n';
            assert(l[j] == '\n');
        }
    }
}

/// Law: each theme's label leads back to the theme, so labels differ.
pub proof fn law_label_from_label(t: AppTheme)
    ensures
        AppTheme::from_label_spec(t.label_spec()) == Some(t),
{
    lemma_labels();
    let s = t.label_spec();
    let i: int = match t {
        AppTheme::Nord => 0,
        AppTheme::CatppuccinMacchiato => 1,
        AppTheme::CatppuccinLatte => 2,
        AppTheme::TokyoNight => 3,
        AppTheme::AyuDark => 4,
    };
    assert(all_themes()[i] == t);
    assert(forall|j: int| 0 <= j < 5 && j != i ==> all_themes()[j].label_spec() != s) by {
        assert forall|j: int| 0 <= j < 5 && j != i implies all_themes()[j].label_spec() != s by {
            let u = all_themes()[j];
            if u.label_spec() == s {
                assert(u.label_spec().len() == s.len());
                assert(u.label_spec()[0] == s[0]);
                assert(u.label_spec()[s.len() - 1] == s[s.len() - 1]);
                if s.len() == 20 || s.len() == 16 {
                    assert(u.label_spec()[11] == s[11]);
                }
            }
        }
    }
    assert(0 <= i < 5 && (#[trigger] all_themes()[i]).label_spec() == s);
    let w = choose|w: int|
        0 <= w < 5 && (#[trigger] all_themes()[w]).label_spec() == s && forall|j: int|
            0 <= j < w ==> all_themes()[j].label_spec() != s;
    assert(0 <= w < 5 && all_themes()[w].label_spec() == s);
}

/// Every theme appears in `all_themes`, and only once.
pub proof fn law_all_themes(t: AppTheme)
    ensures
        exists|i: int| 0 <= i < all_themes().len() && all_themes()[i] == t,
        all_themes().no_duplicates(),
{
    let i: int = match t {
        AppTheme::Nord => 0,
        AppTheme::CatppuccinMacchiato => 1,
        AppTheme::CatppuccinLatte => 2,
        AppTheme::TokyoNight => 3,
        AppTheme::AyuDark => 4,
    };
    assert(all_themes()[i] == t);
}

/// The theme that a `config.toml` text selects: the theme named by its
/// `theme` value, and Nord where it names none.
pub open spec fn theme_from_config_spec(config: Seq<char>) -> AppTheme {
    let m = read_spec(config, true);
    if m.contains_key(theme_key()) {
        match AppTheme::from_label_spec(m[theme_key()]) {
            Some(t) => t,
            None => AppTheme::Nord,
        }
    } else {
        AppTheme::Nord
    }
}

/// The theme at start-up, from the text of `config.toml`.
pub fn theme_from_config(config: &str) -> (r: AppTheme)
    ensures
        r == theme_from_config_spec(config@),
{
    match crate::settings::read_theme(config) {
        Some(label) => match AppTheme::from_label(label.as_str()) {
            Some(t) => t,
            None => AppTheme::Nord,
        },
        None => AppTheme::Nord,
    }
}

/// Law: a theme that is saved is the theme at the next start-up.
pub proof fn law_theme_persists(config: Seq<char>, t: AppTheme, written: Seq<char>)
    requires
        renders(written, read_spec(config, true).insert(theme_key(), t.label_spec()), true),
    ensures
        theme_from_config_spec(written) == t,
{
    lemma_labels();
    let l = t.label_spec();
    assert(clean_value(l, true)) by {
        reveal_strlit("Nord");
        reveal_strlit("Catppuccin Macchiato");
        reveal_strlit("Tokyo Night");
        reveal_strlit("Catppuccin Latte");
        reveal_strlit("Ayu Dark");
    }
    law_theme_write_read(config, l, written);
    law_label_from_label(t);
}

} // verus!
