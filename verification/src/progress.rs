//! Progress through the four maps: which map may be entered, how many matches
//! it asks for, which specials it has unlocked, and where the game goes once
//! the matches are made.

use crate::resolver::{MatchMade, UnlockFlags};
use vstd::prelude::*;

verus! {

/// Matches made on the current board.
#[derive(Clone, Copy, PartialEq, Eq, Debug, Structural)]
pub struct TotalMatches(pub u32);

/// Matches that the current board asks for.
#[derive(Clone, Copy, PartialEq, Eq, Debug, Structural)]
pub struct NeededMatches(pub u32);

/// Which maps were finished. A map once finished stays finished.
#[derive(Clone, Copy, PartialEq, Eq, Debug, Default, Structural)]
pub struct MapFinishes {
    pub map1: bool,
    pub map2: bool,
    pub map3: bool,
    pub map4: bool,
}

/// The map being played.
#[derive(Clone, Copy, PartialEq, Eq, Debug, Default, Structural)]
pub enum CurrentMap {
    #[default]
    NoMap,
    One,
    Two,
    Three,
    Four,
}

/// The screen the game shows.
#[derive(Clone, Copy, PartialEq, Eq, Debug, Default, Hash, Structural)]
pub enum GameState {
    MapScreen,
    Board,
    WinScreen,
    #[default]
    StartScreen,
    ExplanationScreen,
}

/// The buttons of the map screen, one per map.
#[derive(Clone, Copy, PartialEq, Eq, Debug, Structural)]
pub enum BoardButton {
    First,
    Second,
    Third,
    Fourth,
}

impl CurrentMap {
    /// The map itself.
    pub fn get(&self) -> (map: &Self)
        ensures
            map == self,
    {
        self
    }
}

impl MapFinishes {
    /// Whether every map finished in `self` is finished in `later` too.
    pub open spec fn kept_by(self, later: MapFinishes) -> bool {
        &&& self.map1 ==> later.map1
        &&& self.map2 ==> later.map2
        &&& self.map3 ==> later.map3
        &&& self.map4 ==> later.map4
    }

    /// The finishes with the given map finished as well.
    pub open spec fn with_finished(self, map: CurrentMap) -> MapFinishes {
        match map {
            CurrentMap::One => MapFinishes { map1: true, ..self },
            CurrentMap::Two => MapFinishes { map2: true, ..self },
            CurrentMap::Three => MapFinishes { map3: true, ..self },
            CurrentMap::Four => MapFinishes { map4: true, ..self },
            CurrentMap::NoMap => self,
        }
    }

    /// The specials that the finished maps have unlocked: the first map
    /// unlocks bombs, the second liners, the third eliminators.
    pub open spec fn unlocks(self) -> UnlockFlags {
        UnlockFlags {
            eliminator_unlocked: self.map3,
            bomb_unlocked: self.map1,
            liner_unlocked: self.map2,
        }
    }
}

/// Whether eliminators may be created: the third map is finished.
pub fn eliminator_unlocked(map_finishes: &MapFinishes) -> (unlocked: bool)
    ensures
        unlocked == map_finishes.unlocks().eliminator_unlocked,
{
    map_finishes.map3
}

/// Whether bombs may be created: the first map is finished.
pub fn bomb_unlocked(map_finishes: &MapFinishes) -> (unlocked: bool)
    ensures
        unlocked == map_finishes.unlocks().bomb_unlocked,
{
    map_finishes.map1
}

/// Whether liners may be created: the second map is finished.
pub fn liner_unlocked(map_finishes: &MapFinishes) -> (unlocked: bool)
    ensures
        unlocked == map_finishes.unlocks().liner_unlocked,
{
    map_finishes.map2
}

/// The specials that the finished maps have unlocked.
pub fn unlock_flags(map_finishes: &MapFinishes) -> (flags: UnlockFlags)
    ensures
        flags == map_finishes.unlocks(),
{
    UnlockFlags {
        eliminator_unlocked: eliminator_unlocked(map_finishes),
        bomb_unlocked: bomb_unlocked(map_finishes),
        liner_unlocked: liner_unlocked(map_finishes),
    }
}

/// Records that the current map was finished.
pub fn update_map_finishes(map_finishes: &mut MapFinishes, current_map: &CurrentMap)
    ensures
        *final(map_finishes) == old(map_finishes).with_finished(*current_map),
        old(map_finishes).kept_by(*final(map_finishes)),
{
    match current_map.get() {
        CurrentMap::One => map_finishes.map1 = true,
        CurrentMap::Two => map_finishes.map2 = true,
        CurrentMap::Three => map_finishes.map3 = true,
        CurrentMap::Four => map_finishes.map4 = true,
        CurrentMap::NoMap => {},
    }
}

/// Starts the count of matches over.
pub fn reset_total_matches(total_matches: &mut TotalMatches)
    ensures
        final(total_matches).0 == 0,
{
    total_matches.0 = 0;
}

/// The count after `made` more matches; the count stops at the largest
/// number it can hold.
pub open spec fn counted(total: u32, made: nat) -> u32 {
    if total + made <= u32::MAX {
        (total + made) as u32
    } else {
        u32::MAX
    }
}

/// Counts one match for each notice.
pub fn increment_total_matches(matches_made: &Vec<MatchMade>, total_matches: &mut TotalMatches)
    ensures
        final(total_matches).0 == counted(old(total_matches).0, matches_made@.len()),
{
    let mut k: usize = 0;
    while k < matches_made.len()
        invariant
            k <= matches_made@.len(),
            total_matches.0 == counted(old(total_matches).0, k as nat),
        decreases matches_made@.len() - k,
    {
        if total_matches.0 < u32::MAX {
            total_matches.0 += 1;
        }
        k += 1;
    }
}

/// The screen that follows the board, once the matches asked for are made:
/// the win screen after the fourth map, the explanation screen after the
/// others. `None` while matches are still missing.
pub open spec fn next_screen(total: u32, needed: u32, map: CurrentMap) -> Option<GameState> {
    if total >= needed {
        if map == CurrentMap::Four {
            Some(GameState::WinScreen)
        } else {
            Some(GameState::ExplanationScreen)
        }
    } else {
        None
    }
}

/// The screen that follows the board, once the matches asked for are made.
pub fn go_to_next_screen(
    total_matches: &TotalMatches,
    needed_matches: &NeededMatches,
    current_map: &CurrentMap,
) -> (screen: Option<GameState>)
    ensures
        screen == next_screen(total_matches.0, needed_matches.0, *current_map),
{
    if total_matches.0 >= needed_matches.0 {
        if *current_map == CurrentMap::Four {
            Some(GameState::WinScreen)
        } else {
            Some(GameState::ExplanationScreen)
        }
    } else {
        None
    }
}

impl BoardButton {
    /// Whether the button's map is the next one to play: all maps before it
    /// are finished, and neither it nor any map after it is.
    pub open spec fn available(self, finishes: MapFinishes) -> bool {
        match self {
            BoardButton::First => !finishes.map1 && !finishes.map2 && !finishes.map3
                && !finishes.map4,
            BoardButton::Second => finishes.map1 && !finishes.map2 && !finishes.map3
                && !finishes.map4,
            BoardButton::Third => finishes.map1 && finishes.map2 && !finishes.map3
                && !finishes.map4,
            BoardButton::Fourth => finishes.map1 && finishes.map2 && finishes.map3
                && !finishes.map4,
        }
    }

    /// The map behind the button and the matches it asks for.
    pub open spec fn level(self) -> (NeededMatches, CurrentMap) {
        match self {
            BoardButton::First => (NeededMatches(10), CurrentMap::One),
            BoardButton::Second => (NeededMatches(20), CurrentMap::Two),
            BoardButton::Third => (NeededMatches(30), CurrentMap::Three),
            BoardButton::Fourth => (NeededMatches(40), CurrentMap::Four),
        }
    }

    /// The digit shown on the button.
    pub open spec fn label(self) -> Seq<char> {
        match self {
            BoardButton::First => seq!['1'],
            BoardButton::Second => seq!['2'],
            BoardButton::Third => seq!['3'],
            BoardButton::Fourth => seq!['4'],
        }
    }

    /// The digit shown on the button.
    pub fn as_str(&self) -> (text: &'static str)
        ensures
            text@ == self.label(),
    {
        proof {
            reveal_strlit("1");
            reveal_strlit("2");
            reveal_strlit("3");
            reveal_strlit("4");
        }
        let text = match self {
            BoardButton::First => "1",
            BoardButton::Second => "2",
            BoardButton::Third => "3",
            BoardButton::Fourth => "4",
        };
        text
    }

    /// Whether the button's map is the next one to play.
    pub fn map_available(&self, map_finishes: &MapFinishes) -> (available: bool)
        ensures
            available == self.available(*map_finishes),
    {
        match self {
            BoardButton::First => {
                !map_finishes.map1 && !map_finishes.map2 && !map_finishes.map3
                    && !map_finishes.map4
            },
            BoardButton::Second => {
                map_finishes.map1 && !map_finishes.map2 && !map_finishes.map3
                    && !map_finishes.map4
            },
            BoardButton::Third => {
                map_finishes.map1 && map_finishes.map2 && !map_finishes.map3 && !map_finishes.map4
            },
            BoardButton::Fourth => {
                map_finishes.map1 && map_finishes.map2 && map_finishes.map3 && !map_finishes.map4
            },
        }
    }

    /// The four buttons, in order.
    pub fn iterator() -> (buttons: Vec<BoardButton>)
        ensures
            buttons@ == seq![
                BoardButton::First,
                BoardButton::Second,
                BoardButton::Third,
                BoardButton::Fourth,
            ],
    {
        let mut buttons: Vec<BoardButton> = Vec::new();
        buttons.push(BoardButton::First);
        buttons.push(BoardButton::Second);
        buttons.push(BoardButton::Third);
        buttons.push(BoardButton::Fourth);
        buttons
    }
}

/// What a press on a map button starts: the button's map with the matches it
/// asks for, or nothing where that map is not the next one to play.
pub fn go_to_board_on_click(board_button: &BoardButton, map_finishes: &MapFinishes) -> (level:
    Option<(NeededMatches, CurrentMap)>)
    ensures
        level == if board_button.available(*map_finishes) {
            Some(board_button.level())
        } else {
            None
        },
{
    if !board_button.map_available(map_finishes) {
        return None;
    }
    match *board_button {
        BoardButton::First => Some((NeededMatches(10), CurrentMap::One)),
        BoardButton::Second => Some((NeededMatches(20), CurrentMap::Two)),
        BoardButton::Third => Some((NeededMatches(30), CurrentMap::Three)),
        BoardButton::Fourth => Some((NeededMatches(40), CurrentMap::Four)),
    }
}

} // verus!
