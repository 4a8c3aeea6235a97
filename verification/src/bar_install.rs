//! The launcher's decisions for a local Beyond All Reason install: which
//! archives are game versions, which versions a launch uses, where the
//! install root is when a path points inside it, and the start script the
//! engine is started with.  Looking at the disk and starting the engine is
//! the caller's part; paths are carried as text.

use vstd::prelude::*;

use crate::text::{
    ascii_lower_seq, decimal_text, eq_ascii_lowercase, has_prefix, lowercase_of, push_decimal, starts_with, str_eq, to_lowercase,
};

verus! {

/// One available game version shown in the version picker.
pub struct BarGameVersion {
    /// Label shown in the UI -- archive filename, with `" (latest)"`
    /// suffixed on the newest-mtime entry.
    pub label: String,
    /// Value written to `GameType=` in the startscript (the archive's
    /// `name + " " + version` from its `modinfo.lua`).
    pub archive_name: String,
    /// Full path to the archive on disk.
    pub path: Option<String>,
}

/// One available engine version shown in the version picker.
pub struct BarEngineVersion {
    /// Label shown in the UI -- the version folder name.
    pub label: String,
    /// Path to `spring.exe`.
    pub exe: String,
}

/// All detected game and engine versions for a BAR install.
pub struct BarVersions {
    /// Locally installed game archives, newest-mtime first.
    pub games: Vec<BarGameVersion>,
    /// Available engine binaries, newest-mtime first.
    pub engines: Vec<BarEngineVersion>,
    /// Directory where SD7 archives must be placed to appear in BAR.
    pub maps_dir: String,
    /// BAR's data root (`<install>/data/`), passed as `--write-dir`.
    pub data_dir: String,
}

/// Why a test launch failed.
pub enum LaunchError {
    CopyFailed(String),
    SpawnFailed(String),
    Sd7Unreadable(String),
}

impl LaunchError {
    /// The error's message, as its `Display` text reads.
    pub fn message(&self) -> (r: String)
        ensures
            r@ == match self {
                LaunchError::CopyFailed(m) => "failed to copy SD7 to BAR maps dir: "@ + m@,
                LaunchError::SpawnFailed(m) => "failed to launch BAR engine: "@ + m@,
                LaunchError::Sd7Unreadable(m) => "SD7 missing or unreadable: "@ + m@,
            },
    {
        match self {
            LaunchError::CopyFailed(m) => String::from_str("failed to copy SD7 to BAR maps dir: ").concat(m.as_str()),
            LaunchError::SpawnFailed(m) => String::from_str("failed to launch BAR engine: ").concat(m.as_str()),
            LaunchError::Sd7Unreadable(m) => String::from_str("SD7 missing or unreadable: ").concat(m.as_str()),
        }
    }
}

// -- Game archives ------------------------------------------------------------------

/// Whether a file is a game archive: extension `sdz`, `sd7` or `sdd`, and a
/// lower-cased name starting with `byar` (the legacy format) or `bar`.
pub open spec fn is_game_archive_spec(file_name: Seq<char>, ext: Seq<char>) -> bool {
    (ext == "sdz"@ || ext == "sd7"@ || ext == "sdd"@) && (has_prefix(lowercase_of(file_name), "byar"@)
        || has_prefix(lowercase_of(file_name), "bar"@))
}

/// Whether the file `file_name` with extension `ext` is a game archive.
pub fn is_game_archive(file_name: &str, ext: &str) -> (r: bool)
    ensures
        r == is_game_archive_spec(file_name@, ext@),
{
    if !(str_eq(ext, "sdz") || str_eq(ext, "sd7") || str_eq(ext, "sdd")) {
        return false;
    }
    let lc = to_lowercase(file_name);
    starts_with(lc.as_str(), "byar") || starts_with(lc.as_str(), "bar")
}

/// Suffixes `" (latest)"` to the label of the first (newest) game.
pub fn mark_latest(games: &mut Vec<BarGameVersion>)
    ensures
        final(games)@.len() == old(games)@.len(),
        old(games)@.len() > 0 ==> final(games)@[0].label@ == old(games)@[0].label@ + " (latest)"@,
        old(games)@.len() > 0 ==> final(games)@[0].archive_name == old(games)@[0].archive_name,
        old(games)@.len() > 0 ==> final(games)@[0].path == old(games)@[0].path,
        forall|i: int| 1 <= i < old(games)@.len() ==> #[trigger] final(games)@[i] == old(games)@[i],
{
    if games.len() == 0 {
        return;
    }
    let mut newest = games.remove(0);
    newest.label.append(" (latest)");
    games.insert(0, newest);
    assert forall|i: int| 1 <= i < old(games)@.len() implies #[trigger] games@[i] == old(games)@[i] by {}
}

// -- Version selection ---------------------------------------------------------------

/// Index used for a requested index into `n` entries: the requested one
/// when it exists, else the first.
// -- Newest first -----------------------------------------------------------------

/// `s` (in descending key order) with `x` placed after every entry whose key
/// is at least `x`'s.
pub open spec fn insert_desc<T>(s: Seq<(u128, T)>, x: (u128, T)) -> Seq<(u128, T)>
    decreases s.len(),
{
    if s.len() == 0 {
        seq![x]
    } else if s.last().0 >= x.0 {
        s.push(x)
    } else {
        insert_desc(s.drop_last(), x).push(s.last())
    }
}

/// The entries in descending key order, entries with equal keys keeping
/// their order (a stable sort, newest first when the keys are times).
pub open spec fn sort_desc<T>(s: Seq<(u128, T)>) -> Seq<(u128, T)>
    decreases s.len(),
{
    if s.len() == 0 {
        Seq::empty()
    } else {
        insert_desc(sort_desc(s.drop_last()), s.last())
    }
}

/// Keys in non-increasing order.
pub open spec fn keys_desc<T>(s: Seq<(u128, T)>) -> bool {
    forall|i: int, j: int| 0 <= i < j < s.len() ==> #[trigger] s[i].0 >= #[trigger] s[j].0
}

proof fn lemma_insert_desc<T>(s: Seq<(u128, T)>, x: (u128, T), m: u128)
    requires
        keys_desc(s),
        forall|i: int| 0 <= i < s.len() ==> #[trigger] s[i].0 >= m,
        x.0 >= m,
    ensures
        keys_desc(insert_desc(s, x)),
        insert_desc(s, x).len() == s.len() + 1,
        forall|i: int| 0 <= i < insert_desc(s, x).len() ==> #[trigger] insert_desc(s, x)[i].0 >= m,
    decreases s.len(),
{
    if s.len() > 0 {
        let l = s.last();
        if l.0 < x.0 {
            let d = s.drop_last();
            assert forall|i: int| 0 <= i < d.len() implies #[trigger] d[i].0 >= l.0 by {
                assert(s[i].0 >= s[s.len() - 1].0);
            }
            lemma_insert_desc(d, x, l.0);
            lemma_insert_desc(d, x, m);
            let r = insert_desc(d, x);
            assert(insert_desc(s, x) == r.push(l));
        } else {
            assert forall|i: int| 0 <= i < s.len() implies #[trigger] s[i].0 >= l.0 by {
                if i < s.len() - 1 {
                    assert(s[i].0 >= s[s.len() - 1].0);
                }
            }
        }
    }
}

/// The stable newest-first order sorts the keys from largest to smallest and
/// keeps the number of entries.
pub proof fn lemma_sort_desc<T>(s: Seq<(u128, T)>)
    ensures
        keys_desc(sort_desc(s)),
        sort_desc(s).len() == s.len(),
    decreases s.len(),
{
    if s.len() > 0 {
        lemma_sort_desc(s.drop_last());
        lemma_insert_desc(sort_desc(s.drop_last()), s.last(), 0);
    }
}

/// The values of `entries` ordered by key, largest first, equal keys keeping
/// their order: newest first when the keys are modification times.
pub fn order_newest_first<T>(entries: Vec<(u128, T)>) -> (r: Vec<T>)
    ensures
        r@ == sort_desc(entries@).map_values(|p: (u128, T)| p.1),
{
    let ghost orig = entries@;
    let n = entries.len();
    let mut rest = entries;
    let mut out: Vec<(u128, T)> = Vec::new();
    let mut k: usize = 0;
    while k < n
        invariant
            0 <= k <= n,
            n == orig.len(),
            rest@ == orig.subrange(k as int, n as int),
            out@ == sort_desc(orig.subrange(0, k as int)),
        decreases n - k,
    {
        let x = rest.remove(0);
        assert(x == orig[k as int]);
        assert(orig.subrange(0, (k + 1) as int).drop_last() =~= orig.subrange(0, k as int));
        let ghost target = insert_desc(out@, x);
        let mut j: usize = out.len();
        assert(out@.subrange(0, j as int) =~= out@);
        assert(target =~= insert_desc(out@.subrange(0, j as int), x) + out@.subrange(j as int, out@.len() as int));
        while j > 0 && out[j - 1].0 < x.0
            invariant
                0 <= j <= out@.len(),
                target == insert_desc(out@.subrange(0, j as int), x) + out@.subrange(j as int, out@.len() as int),
            decreases j,
        {
            let ghost s = out@.subrange(0, j as int);
            assert(s.drop_last() =~= out@.subrange(0, j - 1));
            assert(out@.subrange(j - 1, out@.len() as int) =~= seq![s.last()] + out@.subrange(j as int, out@.len() as int));
            j = j - 1;
        }
        let ghost pre = out@;
        assert(insert_desc(pre.subrange(0, j as int), x) =~= pre.subrange(0, j as int).push(x));
        out.insert(j, x);
        assert(out@ =~= target);
        assert(rest@ =~= orig.subrange((k + 1) as int, n as int));
        k = k + 1;
    }
    assert(orig.subrange(0, n as int) =~= orig);
    let ghost sorted = out@;
    let m = out.len();
    let mut res: Vec<T> = Vec::new();
    let mut i: usize = 0;
    while i < m
        invariant
            0 <= i <= m,
            m == sorted.len(),
            out@ == sorted.subrange(i as int, m as int),
            res@ == sorted.subrange(0, i as int).map_values(|p: (u128, T)| p.1),
        decreases m - i,
    {
        let (_, v) = out.remove(0);
        assert(sorted.subrange(0, (i + 1) as int).map_values(|p: (u128, T)| p.1) =~= sorted.subrange(0, i as int).map_values(
            |p: (u128, T)| p.1,
        ).push(v));
        res.push(v);
        assert(out@ =~= sorted.subrange((i + 1) as int, m as int));
        i = i + 1;
    }
    assert(sorted.subrange(0, m as int) =~= sorted);
    res
}

pub open spec fn pick_index(requested: int, n: int) -> int {
    if requested < n {
        requested
    } else {
        0
    }
}

impl BarVersions {
    /// The game and engine versions a launch uses: the ones at `game_idx` /
    /// `engine_idx`, falling back to the first of each when out of bounds;
    /// an error when there is no version at all.
    pub fn select_versions(&self, game_idx: usize, engine_idx: usize) -> (r: Result<(&BarGameVersion, &BarEngineVersion), LaunchError>)
        ensures
            self.games@.len() == 0 ==> (r matches Err(LaunchError::SpawnFailed(m)) && m@
                == "no game version available"@),
            self.games@.len() > 0 && self.engines@.len() == 0 ==> (r matches Err(LaunchError::SpawnFailed(m)) && m@
                == "no engine version available"@),
            self.games@.len() > 0 && self.engines@.len() > 0 ==> (r matches Ok((g, e)) && *g == self.games@[pick_index(
                game_idx as int,
                self.games@.len() as int,
            )] && *e == self.engines@[pick_index(engine_idx as int, self.engines@.len() as int)]),
    {
        if self.games.len() == 0 {
            return Err(LaunchError::SpawnFailed(String::from_str("no game version available")));
        }
        if self.engines.len() == 0 {
            return Err(LaunchError::SpawnFailed(String::from_str("no engine version available")));
        }
        let gi = if game_idx < self.games.len() {
            game_idx
        } else {
            0
        };
        let ei = if engine_idx < self.engines.len() {
            engine_idx
        } else {
            0
        };
        Ok((&self.games[gi], &self.engines[ei]))
    }
}

// -- Install root ------------------------------------------------------------------

/// How many trailing components to strip from a configured install path so
/// that it names the install root: 2 for `<root>/data/games` (leaf `games`
/// in any ASCII case, parent named exactly `data`, and a grandparent), 1 for
/// `<root>/data` (leaf `data` in any ASCII case, with a parent), else 0.
pub open spec fn install_root_trim_spec(
    leaf: Option<Seq<char>>,
    parent_leaf: Option<Option<Seq<char>>>,
    has_grandparent: bool,
) -> u32 {
    match leaf {
        Some(l) => if ascii_lower_seq(l) == "games"@ {
            if parent_leaf == Some(Some("data"@)) && has_grandparent {
                2
            } else {
                0
            }
        } else if ascii_lower_seq(l) == "data"@ {
            if parent_leaf is Some {
                1
            } else {
                0
            }
        } else {
            0
        },
        None => 0,
    }
}

/// Number of trailing path components to strip from a configured install
/// path: `leaf` is its last component (`None` when it has none or it is not
/// valid text), `parent_leaf` the last component of its parent (`None` when
/// it has no parent), `has_grandparent` whether the parent has a parent.
pub fn install_root_trim(leaf: Option<&str>, parent_leaf: Option<Option<&str>>, has_grandparent: bool) -> (r: u32)
    ensures
        r == install_root_trim_spec(
            match leaf {
                Some(l) => Some(l@),
                None => None,
            },
            match parent_leaf {
                Some(Some(p)) => Some(Some(p@)),
                Some(None) => Some(None),
                None => None,
            },
            has_grandparent,
        ),
{
    match leaf {
        Some(l) => {
            if eq_ascii_lowercase(l, "games") {
                let parent_is_data = match parent_leaf {
                    Some(Some(p)) => str_eq(p, "data"),
                    _ => false,
                };
                if parent_is_data && has_grandparent {
                    2
                } else {
                    0
                }
            } else if eq_ascii_lowercase(l, "data") {
                if parent_leaf.is_some() {
                    1
                } else {
                    0
                }
            } else {
                0
            }
        },
        None => 0,
    }
}

// -- Start script --------------------------------------------------------------------

/// Start script text before the map name.
pub open spec fn script_head() -> Seq<char> {
    "[GAME]\n{\n\tMapName="@
}

/// Between the map name and the game archive.
pub open spec fn script_game() -> Seq<char> {
    ";\n\tGameType="@
}

/// From the game archive to team 0's start X.
pub open spec fn script_team0() -> Seq<char> {
    ";\n\tStartPosType=3;\n\tGameStartDelay=4;\n\tMyPlayerNum=0;\n\tMyPlayerName=MapTester;\n\tIsHost=1;\n\n\t[PLAYER0]\n\t{\n\t\tName=MapTester;\n\t\tSpectator=1;\n\t}\n\n\t[ALLYTEAM0]\n\t{\n\t\tNumAllies=0;\n\t}\n\t[TEAM0]\n\t{\n\t\tAllyTeam=0;\n\t\tTeamLeader=0;\n\t\tStartPosX="@
}

/// Between a team's start X and start Z.
pub open spec fn script_pos_z() -> Seq<char> {
    ";\n\t\tStartPosZ="@
}

/// From team 0's start Z to team 1's start X.
pub open spec fn script_team1() -> Seq<char> {
    ";\n\t}\n\t[AI0]\n\t{\n\t\tName=BARb0;\n\t\tShortName=BARb;\n\t\tTeam=0;\n\t\tHost=0;\n\t\tIsFromDemo=0;\n\t}\n\n\t[ALLYTEAM1]\n\t{\n\t\tNumAllies=0;\n\t}\n\t[TEAM1]\n\t{\n\t\tAllyTeam=1;\n\t\tTeamLeader=0;\n\t\tStartPosX="@
}

/// After team 1's start Z.
pub open spec fn script_tail() -> Seq<char> {
    ";\n\t}\n\t[AI1]\n\t{\n\t\tName=BARb1;\n\t\tShortName=BARb;\n\t\tTeam=1;\n\t\tHost=0;\n\t\tIsFromDemo=0;\n\t}\n}\n"@
}

/// The start script of a map-testing skirmish: the local player spectates
/// while two AI teams play each other from the given start positions.
pub open spec fn skirmish_script_spec(map: Seq<char>, game: Seq<char>, t0: (i32, i32), t1: (i32, i32)) -> Seq<char> {
    script_head() + map + script_game() + game + script_team0() + decimal_text(t0.0 as int) + script_pos_z()
        + decimal_text(t0.1 as int) + script_team1() + decimal_text(t1.0 as int) + script_pos_z() + decimal_text(
        t1.1 as int,
    ) + script_tail()
}

/// The start script for testing map `map_internal_name` with game archive
/// `game_archive`, teams 0 and 1 starting at `t0` and `t1` (world X, Z).
pub fn skirmish_script(map_internal_name: &str, game_archive: &str, t0: (i32, i32), t1: (i32, i32)) -> (r: String)
    ensures
        r@ == skirmish_script_spec(map_internal_name@, game_archive@, t0, t1),
{
    let mut s = String::from_str("[GAME]\n{\n\tMapName=");
    s.append(map_internal_name);
    s.append(";\n\tGameType=");
    s.append(game_archive);
    s.append(
        ";\n\tStartPosType=3;\n\tGameStartDelay=4;\n\tMyPlayerNum=0;\n\tMyPlayerName=MapTester;\n\tIsHost=1;\n\n\t[PLAYER0]\n\t{\n\t\tName=MapTester;\n\t\tSpectator=1;\n\t}\n\n\t[ALLYTEAM0]\n\t{\n\t\tNumAllies=0;\n\t}\n\t[TEAM0]\n\t{\n\t\tAllyTeam=0;\n\t\tTeamLeader=0;\n\t\tStartPosX=",
    );
    push_decimal(&mut s, t0.0);
    s.append(";\n\t\tStartPosZ=");
    push_decimal(&mut s, t0.1);
    s.append(
        ";\n\t}\n\t[AI0]\n\t{\n\t\tName=BARb0;\n\t\tShortName=BARb;\n\t\tTeam=0;\n\t\tHost=0;\n\t\tIsFromDemo=0;\n\t}\n\n\t[ALLYTEAM1]\n\t{\n\t\tNumAllies=0;\n\t}\n\t[TEAM1]\n\t{\n\t\tAllyTeam=1;\n\t\tTeamLeader=0;\n\t\tStartPosX=",
    );
    push_decimal(&mut s, t1.0);
    s.append(";\n\t\tStartPosZ=");
    push_decimal(&mut s, t1.1);
    s.append(
        ";\n\t}\n\t[AI1]\n\t{\n\t\tName=BARb1;\n\t\tShortName=BARb;\n\t\tTeam=1;\n\t\tHost=0;\n\t\tIsFromDemo=0;\n\t}\n}\n",
    );
    s
}

} // verus!
