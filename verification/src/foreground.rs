//! Telling whether a game is in the foreground.

use vstd::prelude::*;

use crate::number;
use crate::text;

verus! {

/// A process with at most this adjustment is in use: in the foreground or visible.
pub const FOREGROUND_ADJ_MAX: i32 = 100;

/// What is known of an entry of the process directory: its name, the package that
/// it runs, and the content of its file for the adjustment, each if it could be
/// found out.
pub struct ProcEntry {
    pub name: String,
    pub pkg: Option<String>,
    pub adj: Option<String>,
}

/// The adjustment that a file holds.
pub open spec fn spec_oom_score_adj(content: Seq<char>) -> Option<int> {
    number::spec_parse_signed(text::spec_trim(content), i32::MIN as int, i32::MAX as int)
}

/// Reads the adjustment from the content of its file.
pub fn read_oom_score_adj(content: &str) -> (r: Option<i32>)
    ensures
        match spec_oom_score_adj(content@) {
            Some(v) => r == Some(v as i32) && i32::MIN <= v <= i32::MAX,
            None => r is None,
        },
{
    number::parse_i32(text::trim(content))
}

/// Whether the name of an entry is a process id.
pub open spec fn is_process(name: Seq<char>) -> bool {
    number::spec_parse_signed(name, i32::MIN as int, i32::MAX as int) is Some
}

/// Whether an entry is a process in use that runs one of the games.
pub open spec fn is_foreground_game(entry: ProcEntry, games: Seq<Seq<char>>) -> bool {
    &&& is_process(entry.name@)
    &&& entry.pkg matches Some(pkg) && games.contains(pkg@)
    &&& entry.adj matches Some(t) && (spec_oom_score_adj(t@) matches Some(v) && v
        <= FOREGROUND_ADJ_MAX)
}

/// Tests whether an entry is a process in use that runs one of the games.
pub fn foreground_game(entry: &ProcEntry, games: &Vec<String>) -> (r: bool)
    ensures
        r == is_foreground_game(*entry, text::texts(games@)),
{
    if number::parse_i32(entry.name.as_str()).is_none() {
        return false;
    }
    let listed: bool = match &entry.pkg {
        Some(pkg) => text::list_contains(games, pkg.as_str()),
        None => false,
    };
    if !listed {
        return false;
    }
    match &entry.adj {
        Some(t) => match read_oom_score_adj(t.as_str()) {
            Some(v) => v <= FOREGROUND_ADJ_MAX,
            None => false,
        },
        None => false,
    }
}

/// Whether one of the games is in use.
pub fn game_foreground(entries: &Vec<ProcEntry>, games: &Vec<String>) -> (r: bool)
    ensures
        r == exists|k: int|
            0 <= k < entries@.len() && is_foreground_game(
                #[trigger] entries@[k],
                text::texts(games@),
            ),
{
    let mut i: usize = 0;
    while i < entries.len()
        invariant
            i <= entries@.len(),
            forall|k: int|
                0 <= k < i ==> !is_foreground_game(#[trigger] entries@[k], text::texts(games@)),
        decreases entries.len() - i,
    {
        if foreground_game(&entries[i], games) {
            return true;
        }
        i = i + 1;
    }
    false
}

/// Without games, none is in the foreground.
pub proof fn law_no_games_no_foreground(entry: ProcEntry)
    ensures
        !is_foreground_game(entry, Seq::empty()),
{
}

} // verus!
