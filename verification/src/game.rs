//! The game and mod versions, and the language the mod shows.

use vstd::prelude::*;

use crate::strings::{chars_to_string, string_to_chars};

verus! {

/// The name the mod goes by in version strings.
pub fn mod_name() -> (name: &'static str)
    ensures
        name@ == mod_name_spec(),
{
    proof {
        reveal_strlit("dfi18n");
    }
    "dfi18n"
}

pub open spec fn mod_name_spec() -> Seq<char> {
    seq!['d', 'f', 'i', '1', '8', 'n']
}

/// The game's version, its OS and platform, and the mod's version.
pub struct GameInfo {
    os_platform: String,
    version: String,
    mod_version: String,
}

pub struct GameInfoView {
    pub os_platform: Seq<char>,
    pub version: Seq<char>,
    pub mod_version: Seq<char>,
}

impl View for GameInfo {
    type V = GameInfoView;

    closed spec fn view(&self) -> GameInfoView {
        GameInfoView { os_platform: self.os_platform@, version: self.version@, mod_version: self.mod_version@ }
    }
}

/// `a`, `sep` and `b` joined.
pub fn join_with(a: &str, sep: char, b: &str) -> (s: String)
    ensures
        s@ == a@ + seq![sep] + b@,
{
    let mut chars = string_to_chars(a);
    chars.push(sep);
    let tail = string_to_chars(b);
    let ghost head = chars@;
    let mut i: usize = 0;
    while i < tail.len()
        invariant
            i <= tail@.len(),
            chars@ == head + tail@.take(i as int),
        decreases tail@.len() - i,
    {
        proof {
            assert(tail@.take(i as int + 1) =~= tail@.take(i as int).push(tail@[i as int]));
        }
        chars.push(tail[i]);
        i += 1;
    }
    proof {
        assert(tail@.take(tail@.len() as int) =~= tail@);
    }
    chars_to_string(&chars)
}

/// The game information the mod's scripts give, with the OS and platform
/// joined as "os-platform".
pub fn set_game_info(os: String, platform: String, version: String, mod_version: String) -> (info: GameInfo)
    ensures
        info@.os_platform == os@ + seq!['-'] + platform@,
        info@.version == version@,
        info@.mod_version == mod_version@,
{
    let os_platform = join_with(os.as_str(), '-', platform.as_str());
    GameInfo { os_platform, version, mod_version }
}

/// The game's version.
pub fn version(info: &GameInfo) -> (v: &str)
    ensures
        v@ == info@.version,
{
    info.version.as_str()
}

/// The game's OS and platform, as "os-platform".
pub fn os_platform(info: &GameInfo) -> (v: &str)
    ensures
        v@ == info@.os_platform,
{
    info.os_platform.as_str()
}

/// The mod's version.
pub fn mod_version(info: &GameInfo) -> (v: &str)
    ensures
        v@ == info@.mod_version,
{
    info.mod_version.as_str()
}

/// The language the mod shows: its tag, if the scripts set one.
pub struct LangState {
    pub tag: Option<String>,
}

impl LangState {
    pub fn new() -> (s: LangState)
        ensures
            s.tag is None,
    {
        LangState { tag: None }
    }
}

/// The language tag, for the scripts to set.
pub fn get_lang_tag_mut(state: &mut LangState) -> (tag: &mut Option<String>)
    ensures
        *tag == old(state).tag,
        final(state).tag == *final(tag),
{
    &mut state.tag
}

/// The tag of the current language, "en" where none was set.
pub fn current_lang_tag(state: &LangState) -> (tag: String)
    ensures
        tag@ == match state.tag {
            Some(t) => t@,
            None => seq!['e', 'n'],
        },
{
    match &state.tag {
        Some(t) => t.clone(),
        None => {
            let en = "en";
            proof {
                reveal_strlit("en");
            }
            en.to_owned()
        },
    }
}

/// The name of the game's current view screen, as the scripts last set it.
pub struct ViewScreen {
    pub name: String,
}

/// The current view screen's name.
pub fn get_view_screen(screen: &ViewScreen) -> (name: String)
    ensures
        name@ == screen.name@,
{
    screen.name.clone()
}

} // verus!
