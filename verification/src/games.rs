//! Launching DOS games: which engine, which confs, which settings, and the
//! environment that the emulator gets.

use crate::collections::{collection_game_prefix, collection_lang_dir, collection_map, Launcher};
use crate::conf::conf_requests_printer;
use crate::fspath::{join_path, path_lies_in};
use crate::install::{find_there, launcher_for, source_text};
use crate::models::Game;
use crate::scummvm::Os;
use crate::text;
use crate::text::{
    before_suffix, cat, cat3, chars_of, copy, decimal_of, has_prefix, is_one_of, join_texts,
    rcut_once, same, signed_of, split_on, string_of, swap_chars, trim_of,
};
use vstd::prelude::*;

verus! {

// ── Lists ────────────────────────────────────────────────────────────────────

/// One page of the catalogue, and how many games there are in all.
pub struct GameList {
    pub games: Vec<Game>,
    pub total: usize,
}

/// How many games a page holds: fifty where nothing is asked for, and never more
/// than ten thousand.
pub fn page_size(per_page: Option<usize>) -> (r: usize)
    ensures
        r == (match per_page {
            Some(n) => if n < 10000 {
                n
            } else {
                10000
            },
            None => 50,
        }),
{
    match per_page {
        Some(n) => if n < 10000 {
            n
        } else {
            10000
        },
        None => 50,
    }
}

/// What the language variants of a game cost and carry.
pub struct VariantInfo {
    /// The variant is a patch, which needs the English game.
    pub requires_base: bool,
    pub download_size: Option<i64>,
    /// The variants that are installed on top of this one.
    pub installed_with: Option<String>,
}

/// The first game, `i` or later, with this id that others depend on.
pub open spec fn carrier_from(
    games: Seq<Game>,
    dependents: Seq<Vec<String>>,
    id: i64,
    i: int,
) -> Option<int>
    decreases games.len() - i,
{
    if i >= games.len() {
        None
    } else if games[i].id == id && dependents[i]@.len() > 0 {
        Some(i)
    } else {
        carrier_from(games, dependents, id, i + 1)
    }
}

/// The size of a variant with that of the English game that it needs, as the
/// catalogue counts them.
pub open spec fn size_with_base(own: Option<i64>, base: Option<u64>) -> int {
    (match own {
        Some(n) => n as int,
        None => 0,
    }) + (match base {
        Some(b) => (b as i64) as int,
        None => 0,
    })
}

/// What variant `i` costs and carries.
pub open spec fn is_variant_info(
    games: Seq<Game>,
    base_sizes: Seq<Option<u64>>,
    dependents: Seq<Vec<String>>,
    i: int,
    v: VariantInfo,
) -> bool {
    &&& v.requires_base == (base_sizes[i] is Some)
    &&& match base_sizes[i] {
        Some(_) => v.download_size is Some && v.download_size->0 == size_with_base(
            games[i].download_size,
            base_sizes[i],
        ),
        None => v.download_size == games[i].download_size,
    }
    &&& text::opt(v.installed_with) == (match carrier_from(games, dependents, games[i].id, 0) {
        Some(k) => Some(text::join(text::texts(dependents[k]@), ", "@)),
        None => None,
    })
}

/// What the language variants of a game cost and carry. `base_sizes` says of
/// each the size of the English archive that it needs, and `dependents` names
/// the variants that are installed on top of it.
pub fn get_game_variants(
    games: &Vec<Game>,
    base_sizes: &Vec<Option<u64>>,
    dependents: &Vec<Vec<String>>,
) -> (r: Vec<VariantInfo>)
    requires
        base_sizes@.len() == games@.len(),
        dependents@.len() == games@.len(),
        forall|i: int|
            0 <= i < games@.len() ==> i64::MIN <= size_with_base(
                (#[trigger] games@[i]).download_size,
                base_sizes@[i],
            ) <= i64::MAX,
    ensures
        r@.len() == games@.len(),
        forall|i: int|
            0 <= i < r@.len() ==> is_variant_info(
                games@,
                base_sizes@,
                dependents@,
                i,
                #[trigger] r@[i],
            ),
{
    let mut out: Vec<VariantInfo> = Vec::new();
    let mut i: usize = 0;
    while i < games.len()
        invariant
            i <= games@.len(),
            base_sizes@.len() == games@.len(),
            dependents@.len() == games@.len(),
            forall|k: int|
                0 <= k < games@.len() ==> i64::MIN <= size_with_base(
                    (#[trigger] games@[k]).download_size,
                    base_sizes@[k],
                ) <= i64::MAX,
            out@.len() == i,
            forall|k: int|
                0 <= k < i ==> is_variant_info(
                    games@,
                    base_sizes@,
                    dependents@,
                    k,
                    #[trigger] out@[k],
                ),
        decreases games@.len() - i,
    {
        let game = &games[i];
        assert(i64::MIN <= size_with_base(games@[i as int].download_size, base_sizes@[i as int])
            <= i64::MAX);
        let own: i64 = match game.download_size {
            Some(n) => n,
            None => 0,
        };
        let (requires_base, download_size) = match base_sizes[i] {
            Some(b) => (true, Some(own + b as i64)),
            None => (false, game.download_size),
        };
        let installed_with = carried_names(games, dependents, game.id);
        out.push(VariantInfo { requires_base, download_size, installed_with });
        i += 1;
    }
    out
}

fn carried_names(games: &Vec<Game>, dependents: &Vec<Vec<String>>, id: i64) -> (r: Option<String>)
    requires
        dependents@.len() == games@.len(),
    ensures
        text::opt(r) == (match carrier_from(games@, dependents@, id, 0) {
            Some(k) => Some(text::join(text::texts(dependents@[k]@), ", "@)),
            None => None,
        }),
{
    let mut i: usize = 0;
    while i < games.len()
        invariant
            i <= games@.len(),
            dependents@.len() == games@.len(),
            carrier_from(games@, dependents@, id, i as int) == carrier_from(
                games@,
                dependents@,
                id,
                0,
            ),
        decreases games@.len() - i,
    {
        if games[i].id == id && dependents[i].len() > 0 {
            return Some(join_texts(&dependents[i], ", "));
        }
        i += 1;
    }
    None
}

// ── The network ──────────────────────────────────────────────────────────────

/// How a transfer cap is stored: in decimal, or as nothing where there is none.
pub fn rate_limit_text(limit: Option<u32>) -> (r: String)
    ensures
        r@ == (match limit {
            Some(k) => text::decimal(k as nat),
            None => Seq::<char>::empty(),
        }),
{
    match limit {
        Some(k) => decimal_of(k as u64),
        None => String::new(),
    }
}

/// How the choice to seed is stored.
pub fn seeding_text(enabled: bool) -> (r: &'static str)
    ensures
        r@ == (if enabled {
            "1"@
        } else {
            "0"@
        }),
{
    if enabled {
        "1"
    } else {
        "0"
    }
}

/// The figures of the session's transfers.
#[derive(Clone, Copy, Debug, PartialEq, Eq, Structural)]
pub struct TransferStats {
    pub download_bps: u64,
    pub upload_bps: u64,
    pub uploaded_bytes: u64,
    pub peers: u32,
    /// Some torrent is live.
    pub active: bool,
}

/// The figures as they are shown: the session's, with whether any of its
/// torrents is live; nothing at all where there is no torrent.
pub fn get_transfer_stats(session: TransferStats, live: &Vec<bool>) -> (r: TransferStats)
    ensures
        r == (if live@.len() == 0 {
            TransferStats {
                download_bps: 0,
                upload_bps: 0,
                uploaded_bytes: 0,
                peers: 0,
                active: false,
            }
        } else {
            TransferStats { active: live@.contains(true), ..session }
        }),
{
    if live.len() == 0 {
        return TransferStats {
            download_bps: 0,
            upload_bps: 0,
            uploaded_bytes: 0,
            peers: 0,
            active: false,
        };
    }
    let mut i: usize = 0;
    let mut active: bool = false;
    while i < live.len() && !active
        invariant
            i <= live@.len(),
            active ==> live@.contains(true),
            !active ==> forall|k: int| 0 <= k < i ==> !live@[k],
        decreases live@.len() - i,
    {
        active = live[i];
        if active {
            assert(live@[i as int] == true);
        }
        i += 1;
    }
    TransferStats {
        download_bps: session.download_bps,
        upload_bps: session.upload_bps,
        uploaded_bytes: session.uploaded_bytes,
        peers: session.peers,
        active,
    }
}

// ── Running games ────────────────────────────────────────────────────────────

/// What a running game is tracked by: its shortcode and language, or its id.
pub open spec fn running_key(game: Game) -> Seq<char> {
    match game.shortcode {
        Some(code) => code@ + ":"@ + game.language@,
        None => "id:"@ + text::signed(game.id as int),
    }
}

/// What a running game is tracked by.
pub fn running_game_key(game: &Game) -> (r: String)
    ensures
        r@ == running_key(*game),
{
    match &game.shortcode {
        Some(code) => cat3(code.as_str(), ":", game.language.as_str()),
        None => cat("id:", signed_of(game.id).as_str()),
    }
}

/// The games that run.
pub struct RunningGames {
    pub keys: Vec<String>,
}

impl RunningGames {
    pub open spec fn runs(self, key: Seq<char>) -> bool {
        text::texts(self.keys@).contains(key)
    }

    pub fn new() -> (r: Self)
        ensures
            forall|key: Seq<char>| !r.runs(key),
    {
        let keys: Vec<String> = Vec::new();
        assert(text::texts(keys@) =~= Seq::<Seq<char>>::empty());
        RunningGames { keys }
    }

    pub fn is_running(&self, key: &str) -> (r: bool)
        ensures
            r == self.runs(key@),
    {
        is_one_of(&self.keys, key)
    }

    /// A game was started.
    pub fn started(&mut self, key: &str)
        ensures
            forall|k: Seq<char>| #[trigger] final(self).runs(k) == (old(self).runs(k) || k == key@),
    {
        let ghost before = text::texts(self.keys@);
        let name = copy(key);
        self.keys.push(name);
        proof {
            let after = text::texts(self.keys@);
            assert(after =~= before.push(key@));
            assert forall|k: Seq<char>| after.contains(k) == (before.contains(k) || k == key@) by {
                if before.contains(k) {
                    let i = choose|i: int| 0 <= i < before.len() && before[i] == k;
                    assert(after[i] == k);
                }
                if k == key@ {
                    assert(after[before.len() as int] == k);
                }
                if after.contains(k) {
                    let i = choose|i: int| 0 <= i < after.len() && after[i] == k;
                    if i < before.len() {
                        assert(before[i] == k);
                    }
                }
            }
        }
    }

    /// A game ended.
    pub fn ended(&mut self, key: &str)
        ensures
            forall|k: Seq<char>| #[trigger] final(self).runs(k) == (old(self).runs(k) && k != key@),
    {
        let ghost before = text::texts(self.keys@);
        let mut kept: Vec<String> = Vec::new();
        let mut i: usize = 0;
        while i < self.keys.len()
            invariant
                i <= self.keys@.len(),
                before == text::texts(self.keys@),
                forall|k: int|
                    0 <= k < kept@.len() ==> (#[trigger] kept@[k])@ != key@ && before.contains(
                        kept@[k]@,
                    ),
                forall|k: int|
                    0 <= k < i && #[trigger] before[k] != key@ ==> text::texts(kept@).contains(before[k]),
            decreases self.keys@.len() - i,
        {
            let name = self.keys[i].as_str();
            assert(before[i as int] == name@);
            if !same(name, key) {
                let ghost done = text::texts(kept@);
                kept.push(copy(name));
                assert(text::texts(kept@) =~= done.push(name@));
                assert(text::texts(kept@)[done.len() as int] == name@);
                assert forall|k: int| 0 <= k < i && #[trigger] before[k] != key@ implies text::texts(
                    kept@,
                ).contains(before[k]) by {
                    let j = choose|j: int| 0 <= j < done.len() && done[j] == before[k];
                    assert(text::texts(kept@)[j] == before[k]);
                }
            }
            i += 1;
        }
        proof {
            let after = text::texts(kept@);
            assert forall|k: Seq<char>| after.contains(k) == (before.contains(k) && k != key@) by {
                if after.contains(k) {
                    let j = choose|j: int| 0 <= j < after.len() && after[j] == k;
                    assert(kept@[j]@ == k);
                }
                if before.contains(k) && k != key@ {
                    let j = choose|j: int| 0 <= j < before.len() && before[j] == k;
                    assert(after.contains(before[j]));
                }
            }
        }
        self.keys = kept;
    }
}

/// Two variants of a game that differ in their language do not keep each other
/// from running.
pub proof fn law_languages_run_apart(a: Game, b: Game)
    requires
        a.shortcode matches Some(x) && b.shortcode matches Some(y) && x@ == y@,
        a.language@ != b.language@,
    ensures
        running_key(a) != running_key(b),
{
    let x = a.shortcode->0@;
    let pre = x + ":"@;
    assert(running_key(a) == pre + a.language@);
    assert(running_key(b) == pre + b.language@);
    if running_key(a) == running_key(b) {
        assert(a.language@ =~= running_key(a).skip(pre.len() as int));
        assert(b.language@ =~= running_key(b).skip(pre.len() as int));
    }
}

// ── Confs and engines ────────────────────────────────────────────────────────

/// The directory that a conf path names last, if it names one.
pub open spec fn conf_code(rel: Seq<char>) -> Option<Seq<char>> {
    match text::strip_suffix(rel, "/dosbox.conf"@) {
        Some(dir) => {
            let code = match text::rsplit_once(dir, '/') {
                Some((_, last)) => last,
                None => dir,
            };
            if code.len() > 0 {
                Some(code)
            } else {
                None
            }
        },
        None => None,
    }
}

/// The places of a conf in the language directories of the first `n` collections.
pub open spec fn lang_confs(root: Seq<char>, code: Seq<char>, n: int) -> Seq<Seq<char>>
    decreases n,
{
    if n <= 0 {
        Seq::<Seq<char>>::empty()
    } else {
        match crate::collections::collections()[n - 1].lang_dir {
            Some(lang) => lang_confs(root, code, n - 1).push(
                crate::fspath::joined(
                    root,
                    crate::collections::dos().game_prefix + "/"@
                        + crate::collections::dos().shortcode_segment + "/"@ + lang + "/"@ + code
                        + "/dosbox.conf"@,
                ),
            ),
            None => lang_confs(root, code, n - 1),
        }
    }
}

/// Where a game's conf may lie: where the catalogue says, and in the language
/// directories, whose rows inherit the English path.
pub open spec fn conf_places(root: Seq<char>, dosbox_conf: Seq<char>) -> Seq<Seq<char>> {
    let rel = text::swap_char(dosbox_conf, '\\', '/');
    seq![crate::fspath::joined(root, rel)] + (match conf_code(rel) {
        Some(code) => lang_confs(
            root,
            code,
            crate::collections::collections().len() as int,
        ),
        None => Seq::<Seq<char>>::empty(),
    })
}

/// Where a game's conf may lie, the likeliest place first.
pub fn resolve_game_conf(root: &str, dosbox_conf: &str) -> (r: Vec<String>)
    ensures
        text::texts(r@) == conf_places(root@, dosbox_conf@),
{
    let rel = swap_chars(chars_of(dosbox_conf).as_slice(), '\\', '/');
    let mut out: Vec<String> = Vec::new();
    out.push(join_path(root, string_of(rel.as_slice()).as_str()));
    let ghost first = seq![crate::fspath::joined(root@, rel@)];
    assert(text::texts(out@) =~= first);
    let dir = match before_suffix(rel.as_slice(), "/dosbox.conf") {
        Some(d) => d,
        None => {
            assert(text::texts(out@) =~= conf_places(root@, dosbox_conf@));
            return out;
        },
    };
    let code = match rcut_once(dir, '/') {
        Some((before, last)) => last,
        None => dir,
    };
    if code.len() == 0 {
        assert(text::texts(out@) =~= conf_places(root@, dosbox_conf@));
        return out;
    }
    let code_text = string_of(code);
    let all = collection_map();
    let ghost want = crate::collections::collections();
    let mut i: usize = 0;
    assert(text::texts(out@) =~= first + lang_confs(root@, code@, 0));
    while i < all.len()
        invariant
            i <= all@.len(),
            want == crate::collections::collections(),
            all@.len() == want.len(),
            forall|k: int| 0 <= k < all@.len() ==> (#[trigger] all@[k])@ == want[k],
            code_text@ == code@,
            text::texts(out@) == first + lang_confs(root@, code@, i as int),
        decreases all@.len() - i,
    {
        assert(all@[i as int]@ == want[i as int]);
        if let Some(lang) = all[i].lang_dir {
            let mut path = copy("eXo/eXoDOS");
            path.append("/");
            path.append("!dos");
            path.append("/");
            path.append(lang);
            path.append("/");
            path.append(code_text.as_str());
            path.append("/dosbox.conf");
            let place = join_path(root, path.as_str());
            let ghost done = text::texts(out@);
            let ghost p = place@;
            out.push(place);
            assert(text::texts(out@) =~= done.push(p));
            assert(text::texts(out@) =~= first + lang_confs(root@, code@, i + 1));
        }
        i += 1;
    }
    out
}

/// The programs of DOSBox ECE that may run a game: the build that eXo chose for
/// it and the one it ships, on Windows and for a game tuned for ECE.
pub open spec fn ece_places(variant: Option<Seq<char>>, root: Seq<char>, windows: bool) -> Seq<
    Seq<char>,
> {
    match variant {
        Some(v) if windows && "ece"@.is_prefix_of(v) => {
            let base = crate::fspath::joined(root, "eXo/emulators/dosbox"@);
            seq![
                crate::fspath::joined(crate::fspath::joined(base, v), "DOSBox.exe"@),
                crate::fspath::joined(crate::fspath::joined(base, "ece4230"@), "DOSBox.exe"@),
            ]
        },
        _ => Seq::<Seq<char>>::empty(),
    }
}

/// The programs of DOSBox ECE that may run a game.
pub fn resolve_ece_binary(variant: Option<&str>, root: &str, windows: bool) -> (r: Vec<String>)
    ensures
        text::texts(r@) == ece_places(text::opt_ref(variant), root@, windows),
{
    let mut out: Vec<String> = Vec::new();
    if let Some(v) = variant {
        if windows && has_prefix(chars_of(v).as_slice(), "ece") {
            let base = join_path(root, "eXo/emulators/dosbox");
            out.push(join_path(join_path(base.as_str(), v).as_str(), "DOSBox.exe"));
            out.push(join_path(join_path(base.as_str(), "ece4230").as_str(), "DOSBox.exe"));
        }
    }
    assert(text::texts(out@) =~= ece_places(text::opt_ref(variant), root@, windows));
    out
}

/// Which program of DOSBox ECE runs a game, by its place in the list: the first
/// that is there, unless the game's settings ask for DOSBox Staging. None means
/// Staging.
pub fn resolve_engine(there: &Vec<bool>, engine: Option<&str>) -> (r: Option<usize>)
    ensures
        match r {
            Some(i) => text::opt_ref(engine) != Some("staging"@) && crate::install::first_there(
                there@,
                0,
            ) == Some(i as int),
            None => text::opt_ref(engine) == Some("staging"@) || crate::install::first_there(there@, 0)
                is None,
        },
        r matches Some(i) ==> i < there@.len() && there@[i as int],
        r is None && text::opt_ref(engine) != Some("staging"@) ==> !there@.contains(true),
{
    proof {
        crate::install::law_the_first_place_is_taken(there@, 0);
    }
    if let Some(e) = engine {
        if same(e, "staging") {
            return None;
        }
    }
    find_there(there)
}

/// Which engine a game gets, and whether there is a choice.
#[derive(Clone, Copy, Debug, PartialEq, Eq, Structural)]
pub struct GameEngineInfo {
    /// ECE could run the game here, whatever its settings say.
    pub ece_available: bool,
    /// ECE runs the game.
    pub uses_ece: bool,
}

/// Which engine a game gets, and whether there is a choice.
pub fn game_engine_info(there: &Vec<bool>, engine: Option<&str>) -> (r: GameEngineInfo)
    ensures
        r.ece_available == (crate::install::first_there(there@, 0) is Some),
        r.uses_ece == (r.ece_available && text::opt_ref(engine) != Some("staging"@)),
{
    GameEngineInfo {
        ece_available: resolve_engine(there, None).is_some(),
        uses_ece: resolve_engine(there, engine).is_some(),
    }
}

/// Whether a game asks for a printer that its engine does not have. `conf` is
/// None where there is none to read.
pub fn game_printing_unavailable(conf: Option<&str>, uses_ece: bool) -> (r: bool)
    ensures
        r == (!uses_ece && match conf {
            Some(c) => exists|i: int|
                0 <= i < text::lines(c@).len() && crate::conf::enables_printer(
                    #[trigger] text::lines(c@)[i],
                ),
            None => false,
        }),
{
    match conf {
        Some(c) => conf_requests_printer(c) && !uses_ece,
        None => false,
    }
}

// ── Settings ─────────────────────────────────────────────────────────────────

/// A game's own settings. What is not set follows the settings of all games.
pub struct GameSettings {
    /// `staging` where DOSBox Staging is asked for.
    pub engine: Option<String>,
    pub glshader: Option<String>,
    pub fullscreen: Option<String>,
    pub cycles: Option<String>,
    pub custom_conf: Option<String>,
}

/// A stored setting.
pub struct ConfigEntry {
    pub key: String,
    pub value: String,
}

/// The value, from entry `i` on, of a setting.
pub open spec fn setting_from(cfg: Seq<ConfigEntry>, key: Seq<char>, i: int) -> Option<Seq<char>>
    decreases cfg.len() - i,
{
    if i >= cfg.len() {
        None
    } else if cfg[i].key@ == key {
        Some(cfg[i].value@)
    } else {
        setting_from(cfg, key, i + 1)
    }
}

/// The value of a setting.
pub open spec fn setting(cfg: Seq<ConfigEntry>, key: Seq<char>) -> Option<Seq<char>> {
    setting_from(cfg, key, 0)
}

/// The value of a setting.
pub fn config_value(cfg: &Vec<ConfigEntry>, key: &str) -> (r: Option<String>)
    ensures
        text::opt(r) == setting(cfg@, key@),
{
    let mut i: usize = 0;
    while i < cfg.len()
        invariant
            i <= cfg@.len(),
            setting_from(cfg@, key@, i as int) == setting(cfg@, key@),
        decreases cfg@.len() - i,
    {
        if same(cfg[i].key.as_str(), key) {
            return Some(copy(cfg[i].value.as_str()));
        }
        i += 1;
    }
    None
}

/// A game's own settings, out of what is stored.
pub fn get_game_settings(cfg: &Vec<ConfigEntry>) -> (r: GameSettings)
    ensures
        text::opt(r.engine) == setting(cfg@, "engine"@),
        text::opt(r.glshader) == setting(cfg@, "glshader"@),
        text::opt(r.fullscreen) == setting(cfg@, "fullscreen"@),
        text::opt(r.cycles) == setting(cfg@, "cycles"@),
        text::opt(r.custom_conf) == setting(cfg@, "custom_conf"@),
{
    GameSettings {
        engine: config_value(cfg, "engine"),
        glshader: config_value(cfg, "glshader"),
        fullscreen: config_value(cfg, "fullscreen"),
        cycles: config_value(cfg, "cycles"),
        custom_conf: config_value(cfg, "custom_conf"),
    }
}

/// A value that is set: not an empty one.
pub open spec fn set_value(v: Option<String>) -> Option<Seq<char>> {
    match v {
        Some(s) if s@.len() > 0 => Some(s@),
        _ => None,
    }
}

proof fn lemma_setting_push(cfg: Seq<ConfigEntry>, e: ConfigEntry, key: Seq<char>, i: int)
    requires
        0 <= i <= cfg.len(),
    ensures
        setting_from(cfg.push(e), key, i) == (match setting_from(cfg, key, i) {
            Some(v) => Some(v),
            None => if e.key@ == key {
                Some(e.value@)
            } else {
                None
            },
        }),
    decreases cfg.len() - i,
{
    reveal_with_fuel(setting_from, 2);
    if i < cfg.len() {
        lemma_setting_push(cfg, e, key, i + 1);
        assert(cfg.push(e)[i] == cfg[i]);
    } else {
        assert(cfg.push(e)[i] == e);
    }
}

/// Sets one setting, or takes it away where the value is empty or missing.
fn put(cfg: Vec<ConfigEntry>, key: &str, value: &Option<String>) -> (r: Vec<ConfigEntry>)
    ensures
        setting(r@, key@) == set_value(*value),
        forall|other: Seq<char>| other != key@ ==> #[trigger] setting(r@, other) == setting(
            cfg@,
            other,
        ),
{
    let mut out: Vec<ConfigEntry> = Vec::new();
    let mut i: usize = 0;
    while i < cfg.len()
        invariant
            i <= cfg@.len(),
            setting(out@, key@) is None,
            forall|other: Seq<char>|
                other != key@ ==> #[trigger] setting(out@, other) == setting(
                    cfg@.take(i as int),
                    other,
                ),
        decreases cfg@.len() - i,
    {
        let ghost taken = cfg@.take(i as int);
        let ghost e = cfg@[i as int];
        assert(cfg@.take(i + 1) =~= taken.push(e));
        let ghost done = out@;
        if !same(cfg[i].key.as_str(), key) {
            let entry = ConfigEntry {
                key: copy(cfg[i].key.as_str()),
                value: copy(cfg[i].value.as_str()),
            };
            let ghost ge = entry;
            out.push(entry);
            proof {
                lemma_setting_push(done, ge, key@, 0);
                assert forall|other: Seq<char>| other != key@ implies #[trigger] setting(
                    out@,
                    other,
                ) == setting(cfg@.take(i + 1), other) by {
                    lemma_setting_push(done, ge, other, 0);
                    lemma_setting_push(taken, e, other, 0);
                    assert(setting(done, other) == setting(taken, other));
                }
            }
        } else {
            proof {
                assert forall|other: Seq<char>| other != key@ implies #[trigger] setting(
                    out@,
                    other,
                ) == setting(cfg@.take(i + 1), other) by {
                    lemma_setting_push(taken, e, other, 0);
                    assert(setting(done, other) == setting(taken, other));
                }
            }
        }
        i += 1;
    }
    assert(cfg@.take(cfg@.len() as int) =~= cfg@);
    if let Some(v) = value {
        if chars_of(v.as_str()).len() > 0 {
            let ghost done = out@;
            let entry = ConfigEntry { key: copy(key), value: copy(v.as_str()) };
            let ghost ge = entry;
            out.push(entry);
            proof {
                lemma_setting_push(done, ge, key@, 0);
                assert forall|other: Seq<char>| other != key@ implies #[trigger] setting(
                    out@,
                    other,
                ) == setting(cfg@, other) by {
                    lemma_setting_push(done, ge, other, 0);
                    assert(setting(done, other) == setting(cfg@, other));
                }
            }
        }
    }
    out
}

/// Stores a game's own settings: a value is set, and an empty or missing one is
/// taken away, so that the settings of all games count again. Nothing else that
/// is stored changes.
pub fn set_game_settings(cfg: Vec<ConfigEntry>, settings: &GameSettings) -> (r: Vec<ConfigEntry>)
    ensures
        setting(r@, "engine"@) == set_value(settings.engine),
        setting(r@, "glshader"@) == set_value(settings.glshader),
        setting(r@, "fullscreen"@) == set_value(settings.fullscreen),
        setting(r@, "cycles"@) == set_value(settings.cycles),
        setting(r@, "custom_conf"@) == set_value(settings.custom_conf),
        forall|other: Seq<char>|
            other != "engine"@ && other != "glshader"@ && other != "fullscreen"@ && other
                != "cycles"@ && other != "custom_conf"@ ==> #[trigger] setting(r@, other) == setting(
                cfg@,
                other,
            ),
{
    proof {
        reveal_strlit("engine");
        reveal_strlit("glshader");
        reveal_strlit("fullscreen");
        reveal_strlit("cycles");
        reveal_strlit("custom_conf");
        assert("engine"@[0] != "cycles"@[0]);
        assert("glshader"@.len() == 8 && "fullscreen"@.len() == 10 && "custom_conf"@.len() == 11);
    }
    let a = put(cfg, "engine", &settings.engine);
    let b = put(a, "glshader", &settings.glshader);
    let c = put(b, "fullscreen", &settings.fullscreen);
    let d = put(c, "cycles", &settings.cycles);
    let e = put(d, "custom_conf", &settings.custom_conf);
    assert(setting(e@, "engine"@) == set_value(settings.engine));
    assert(setting(e@, "glshader"@) == set_value(settings.glshader));
    assert(setting(e@, "fullscreen"@) == set_value(settings.fullscreen));
    assert(setting(e@, "cycles"@) == set_value(settings.cycles));
    e
}

// ── Launching ────────────────────────────────────────────────────────────────

/// Why a game is not launched.
pub enum LaunchRefusal {
    NotInstalled,
    Running,
    /// The catalogue names no conf.
    NoConf,
}

/// Why a game is not launched, if it is not.
pub open spec fn launch_refusal(game: Game, runs: bool) -> Option<LaunchRefusal> {
    if !game.installed {
        Some(LaunchRefusal::NotInstalled)
    } else if runs {
        Some(LaunchRefusal::Running)
    } else if launch_pipeline(game) == Launcher::DosBox && game.dosbox_conf is None {
        Some(LaunchRefusal::NoConf)
    } else {
        None
    }
}

/// The emulator that a game is launched with; DOSBox for an unknown collection.
pub open spec fn launch_pipeline(game: Game) -> Launcher {
    match crate::install::launcher_of(game) {
        Some(l) => l,
        None => Launcher::DosBox,
    }
}

/// Decides whether a game is launched, and by which emulator.
pub fn launch_game(game: &Game, running: &RunningGames) -> (r: Result<Launcher, LaunchRefusal>)
    ensures
        match r {
            Ok(l) => launch_refusal(*game, running.runs(running_key(*game))) is None && l
                == launch_pipeline(*game),
            Err(e) => launch_refusal(*game, running.runs(running_key(*game))) == Some(e),
        },
{
    if !game.installed {
        return Err(LaunchRefusal::NotInstalled);
    }
    if running.is_running(running_game_key(game).as_str()) {
        return Err(LaunchRefusal::Running);
    }
    let launcher = match launcher_for(game) {
        Some(l) => l,
        None => Launcher::DosBox,
    };
    match launcher {
        Launcher::DosBox => if game.dosbox_conf.is_none() {
            return Err(LaunchRefusal::NoConf);
        },
        _ => {},
    }
    Ok(launcher)
}

/// What is said of a game that is not launched. That the catalogue names no conf
/// is said with the row's fields.
pub fn launch_refusal_message(game: &Game, refusal: &LaunchRefusal) -> (r: Option<String>)
    ensures
        text::opt(r) == (match *refusal {
            LaunchRefusal::NotInstalled => Some(
                game.title@ + " is not installed. Download it first."@,
            ),
            LaunchRefusal::Running => Some("'"@ + game.title@ + "' is already running."@),
            LaunchRefusal::NoConf => None,
        }),
{
    match refusal {
        LaunchRefusal::NotInstalled => Some(
            cat(game.title.as_str(), " is not installed. Download it first."),
        ),
        LaunchRefusal::Running => Some(cat3("'", game.title.as_str(), "' is already running.")),
        LaunchRefusal::NoConf => None,
    }
}

/// The directories that a launch works in: the one it starts from, and in it the
/// one that holds the games.
pub struct LaunchDirs {
    pub working: String,
    pub folder: String,
}

/// The directories that a launch works in, which the collection's path begins
/// with.
pub fn launch_dirs(source: &str) -> (r: LaunchDirs)
    ensures
        (r.working@, r.folder@) == prefix_names(source@),
{
    let prefix = collection_game_prefix(source);
    let chars = chars_of(prefix);
    let names = split_on(chars.as_slice(), '/');
    let ghost all = text::split(prefix@, '/');
    proof {
        text::lemma_split_some(prefix@, '/');
    }
    assert(all[0] == names@[0]@);
    let working = copy(names[0].as_str());
    let folder = if names.len() > 1 {
        assert(all[1] == names@[1]@);
        copy(names[1].as_str())
    } else {
        copy("eXoDOS")
    };
    LaunchDirs { working, folder }
}

/// A language pack's game, as its launch sees it.
pub struct LpSite {
    pub shortcode: String,
    pub lang_dir: String,
    /// The directory of the collection's games, within the working directory.
    pub folder: String,
    /// Where the variant's own files lie.
    pub dir: String,
}

/// What a language pack's game comes to.
pub struct LpPlace {
    pub shortcode: Seq<char>,
    pub lang_dir: Seq<char>,
    pub folder: Seq<char>,
    pub dir: Seq<char>,
}

impl View for LpSite {
    type V = LpPlace;

    open spec fn view(&self) -> LpPlace {
        LpPlace {
            shortcode: self.shortcode@,
            lang_dir: self.lang_dir@,
            folder: self.folder@,
            dir: self.dir@,
        }
    }
}

/// Where a launch by DOSBox works.
pub struct LaunchSite {
    /// The game's conf.
    pub conf: String,
    pub working_dir: String,
    /// The options that come with the emulators.
    pub options_conf: String,
    /// The game has a directory, which its archive is unpacked into where it is
    /// missing.
    pub unpack: bool,
    pub lp: Option<LpSite>,
}

/// A game's shortcode, empty where it has none.
pub open spec fn code_of(game: Game) -> Seq<char> {
    match game.shortcode {
        Some(code) => code@,
        None => Seq::<char>::empty(),
    }
}

/// The first two names of a collection's path.
pub open spec fn prefix_names(source: Seq<char>) -> (Seq<char>, Seq<char>) {
    let names = text::split(crate::collections::prefix_of(source), '/');
    (
        names[0],
        if names.len() > 1 {
            names[1]
        } else {
            "eXoDOS"@
        },
    )
}

/// Where the files of a language pack's game lie.
pub open spec fn lp_place(game: Game, root: Seq<char>) -> Option<LpPlace> {
    let source = crate::install::source_of(game);
    match crate::collections::lang_of(source) {
        Some(lang) => Some(
            LpPlace {
                shortcode: code_of(game),
                lang_dir: lang,
                folder: prefix_names(source).1,
                dir: crate::fspath::joined(
                    root,
                    crate::collections::prefix_of(source) + "/"@ + lang + "/"@ + code_of(game),
                ),
            },
        ),
        None => None,
    }
}

/// The directory that a launch starts from.
pub open spec fn working_place(game: Game, root: Seq<char>) -> Seq<char> {
    crate::fspath::joined(root, prefix_names(crate::install::source_of(game)).0)
}

/// Why a launch by DOSBox goes no further, if it does not.
pub open spec fn site_refusal(
    game: Game,
    root: Seq<char>,
    dosbox_conf: Seq<char>,
    confs_there: Seq<bool>,
    working_there: bool,
) -> Option<Seq<char>> {
    if crate::install::first_there(confs_there, 0) is None {
        Some(
            "Game config not found: "@ + crate::fspath::joined(
                root,
                text::swap_char(dosbox_conf, '\\', '/'),
            ) + "\nMake sure the game is fully downloaded and extracted."@,
        )
    } else if !working_there {
        Some("Working directory not found: "@ + working_place(game, root))
    } else {
        None
    }
}

/// Where a launch by DOSBox works. `confs_there` says which of the places of the
/// game's conf hold one, and `working_there` whether the working directory is there.
pub fn launch_site(
    game: &Game,
    root: &str,
    dosbox_conf: &str,
    confs_there: &Vec<bool>,
    working_there: bool,
) -> (r: Result<LaunchSite, String>)
    requires
        confs_there@.len() == conf_places(root@, dosbox_conf@).len(),
    ensures
        match r {
            Ok(site) => {
                &&& site_refusal(*game, root@, dosbox_conf@, confs_there@, working_there) is None
                &&& site.conf@ == conf_places(root@, dosbox_conf@)[crate::install::first_there(
                    confs_there@,
                    0,
                )->0]
                &&& site.working_dir@ == working_place(*game, root@)
                &&& site.options_conf@ == crate::fspath::joined(
                    root@,
                    "eXo/emulators/dosbox/options.conf"@,
                )
                &&& site.unpack == (code_of(*game).len() > 0)
                &&& match (site.lp, lp_place(*game, root@)) {
                    (Some(lp), Some(place)) => lp@ == place,
                    (None, None) => true,
                    _ => false,
                }
            },
            Err(message) => site_refusal(*game, root@, dosbox_conf@, confs_there@, working_there)
                == Some(message@),
        },
{
    let places = resolve_game_conf(root, dosbox_conf);
    assert(text::texts(places@).len() == places@.len());
    let source = source_text(game);
    let dirs = launch_dirs(source.as_str());
    let working_dir = join_path(root, dirs.working.as_str());
    let at = match find_there(confs_there) {
        Some(i) => i,
        None => {
            let rel = swap_chars(chars_of(dosbox_conf).as_slice(), '\\', '/');
            let place = join_path(root, string_of(rel.as_slice()).as_str());
            return Err(
                cat3(
                    "Game config not found: ",
                    place.as_str(),
                    "\nMake sure the game is fully downloaded and extracted.",
                ),
            );
        },
    };
    if !working_there {
        return Err(cat("Working directory not found: ", working_dir.as_str()));
    }
    let shortcode = match &game.shortcode {
        Some(code) => copy(code.as_str()),
        None => copy(""),
    };
    proof {
        reveal_strlit("");
    }
    assert(shortcode@ =~= code_of(*game));
    let unpack = chars_of(shortcode.as_str()).len() > 0;
    let lp = match collection_lang_dir(source.as_str()) {
        Some(lang) => {
            let prefix = collection_game_prefix(source.as_str());
            let head = cat3(prefix, "/", lang);
            let rel = cat3(head.as_str(), "/", shortcode.as_str());
            let dir = join_path(root, rel.as_str());
            Some(LpSite { shortcode, lang_dir: copy(lang), folder: dirs.folder, dir })
        },
        None => None,
    };
    assert(text::texts(places@)[at as int] == places@[at as int]@);
    Ok(
        LaunchSite {
            conf: copy(places[at].as_str()),
            working_dir,
            options_conf: join_path(root, "eXo/emulators/dosbox/options.conf"),
            unpack,
            lp,
        },
    )
}

/// The settings of all games, as a conf. Both states are written out, because
/// Staging's own default is a shader. ECE knows no shaders.
pub open spec fn global_conf(use_ece: bool, crt: bool, fullscreen: bool) -> Seq<char> {
    let screen = "[sdl]\nfullscreen = "@ + (if fullscreen {
        "true"@
    } else {
        "false"@
    }) + "\n"@;
    if use_ece {
        screen
    } else {
        screen + "[render]\nglshader = "@ + (if crt {
            "crt-auto"@
        } else {
            "sharp"@
        }) + "\n"@
    }
}

/// Whether games are shown through the CRT shader, unless another one was chosen.
pub fn crt_enabled(global_glshader: Option<&str>) -> (r: bool)
    ensures
        r == (match global_glshader {
            Some(v) => v@ == "crt-auto"@,
            None => true,
        }),
{
    match global_glshader {
        Some(v) => same(v, "crt-auto"),
        None => true,
    }
}

/// Whether games fill the screen. Unless that was chosen, they run in a window.
pub fn fullscreen_enabled(default_fullscreen: Option<&str>) -> (r: bool)
    ensures
        r == (match default_fullscreen {
            Some(v) => v@ == "fullscreen"@,
            None => false,
        }),
{
    match default_fullscreen {
        Some(v) => same(v, "fullscreen"),
        None => false,
    }
}

/// The conf that the system needs: without the shader, macOS draws textures.
pub fn platform_overrides(os: Os, crt: bool) -> (r: Option<&'static str>)
    ensures
        text::opt_ref(r) == (if os == Os::Mac && !crt {
            Some("[sdl]\noutput = texture\n"@)
        } else {
            None
        }),
{
    match os {
        Os::Mac => if crt {
            None
        } else {
            Some("[sdl]\noutput = texture\n")
        },
        _ => None,
    }
}

/// The settings of all games, as a conf.
pub fn global_overrides(use_ece: bool, crt: bool, fullscreen: bool) -> (r: String)
    ensures
        r@ == global_conf(use_ece, crt, fullscreen),
{
    let screen = cat3(
        "[sdl]\nfullscreen = ",
        if fullscreen {
            "true"
        } else {
            "false"
        },
        "\n",
    );
    if use_ece {
        screen
    } else {
        let mut out = screen;
        out.append("[render]\nglshader = ");
        out.append(
            if crt {
                "crt-auto"
            } else {
                "sharp"
            },
        );
        out.append("\n");
        out
    }
}

/// One setting as a section of a conf.
pub open spec fn setting_section(head: Seq<char>, value: Option<Seq<char>>) -> Seq<char> {
    match value {
        Some(v) => head + v + "\n"@,
        None => Seq::<char>::empty(),
    }
}

/// A game's own settings, as a conf; empty where it has none.
pub open spec fn game_conf(cfg: Seq<ConfigEntry>, use_ece: bool) -> Seq<char> {
    let shader = match setting(cfg, "glshader"@) {
        Some(g) if g != "default"@ && !use_ece => Some(g),
        _ => None,
    };
    setting_section("[sdl]\nfullscreen = "@, setting(cfg, "fullscreen"@)) + setting_section(
        "[render]\nglshader = "@,
        shader,
    ) + setting_section("[cpu]\ncycles = "@, setting(cfg, "cycles"@)) + (match setting(
        cfg,
        "custom_conf"@,
    ) {
        Some(c) if text::trim(c).len() > 0 => "\n"@ + text::trim(c) + "\n"@,
        _ => Seq::<char>::empty(),
    })
}

fn append_section(out: &mut String, head: &str, value: &Option<String>)
    ensures
        final(out)@ == old(out)@ + setting_section(head@, text::opt(*value)),
{
    let ghost before = out@;
    if let Some(v) = value {
        out.append(head);
        out.append(v.as_str());
        out.append("\n");
    }
    assert(out@ =~= before + setting_section(head@, text::opt(*value)));
}

/// A game's own settings, as a conf that comes after that of all games.
pub fn game_overrides(cfg: &Vec<ConfigEntry>, use_ece: bool) -> (r: String)
    ensures
        r@ == game_conf(cfg@, use_ece),
{
    let mut out: String = String::new();
    let fullscreen = config_value(cfg, "fullscreen");
    append_section(&mut out, "[sdl]\nfullscreen = ", &fullscreen);
    let shader = match config_value(cfg, "glshader") {
        Some(g) => if !same(g.as_str(), "default") && !use_ece {
            Some(g)
        } else {
            None
        },
        None => None,
    };
    append_section(&mut out, "[render]\nglshader = ", &shader);
    let cycles = config_value(cfg, "cycles");
    append_section(&mut out, "[cpu]\ncycles = ", &cycles);
    let ghost before = out@;
    if let Some(custom) = config_value(cfg, "custom_conf") {
        let chars = chars_of(custom.as_str());
        let t = trim_of(chars.as_slice());
        if t.len() > 0 {
            out.append("\n");
            out.append(string_of(t).as_str());
            out.append("\n");
            assert(out@ =~= before + ("\n"@ + t@ + "\n"@));
        }
    }
    assert(out@ =~= game_conf(cfg@, use_ece));
    out
}

/// The confs of a launch, the last of which wins: the game's own, eXo's options,
/// the platform's, that of all games and that of this one.
pub fn launch_confs(
    patched: &str,
    options: Option<&str>,
    platform: Option<&str>,
    global: &str,
    game: Option<&str>,
) -> (r: Vec<String>)
    ensures
        text::texts(r@) == seq![patched@] + (match options {
            Some(p) => seq![p@],
            None => Seq::<Seq<char>>::empty(),
        }) + (match platform {
            Some(p) => seq![p@],
            None => Seq::<Seq<char>>::empty(),
        }) + seq![global@] + (match game {
            Some(p) => seq![p@],
            None => Seq::<Seq<char>>::empty(),
        }),
        r@.len() >= 2,
        r@[0]@ == patched@,
        game matches Some(p) ==> r@.last()@ == p@ && r@[r@.len() - 2]@ == global@,
        game is None ==> r@.last()@ == global@,
{
    let mut out: Vec<String> = Vec::new();
    out.push(copy(patched));
    if let Some(p) = options {
        out.push(copy(p));
    }
    if let Some(p) = platform {
        out.push(copy(p));
    }
    out.push(copy(global));
    if let Some(p) = game {
        out.push(copy(p));
    }
    assert(text::texts(out@) =~= seq![patched@] + (match options {
        Some(p) => seq![p@],
        None => Seq::<Seq<char>>::empty(),
    }) + (match platform {
        Some(p) => seq![p@],
        None => Seq::<Seq<char>>::empty(),
    }) + seq![global@] + (match game {
        Some(p) => seq![p@],
        None => Seq::<Seq<char>>::empty(),
    }));
    assert(forall|i: int| 0 <= i < out@.len() ==> text::texts(out@)[i] == #[trigger] out@[i]@);
    out
}

// ── The emulator's environment ───────────────────────────────────────────────

/// The variables that an AppImage points into itself. An emulator gets none of
/// them.
pub open spec fn appimage_only() -> Seq<Seq<char>> {
    seq![
        "LD_LIBRARY_PATH"@,
        "LD_PRELOAD"@,
        "APPDIR"@,
        "APPIMAGE"@,
        "OWD"@,
        "ARGV0"@,
        "PYTHONHOME"@,
        "GDK_BACKEND"@,
        "GTK_DATA_PREFIX"@,
        "GTK_THEME"@,
        "GTK_EXE_PREFIX"@,
        "GTK_PATH"@,
        "GTK_IM_MODULE_FILE"@,
        "GDK_PIXBUF_MODULE_FILE"@,
        "GIO_EXTRA_MODULES"@,
        "GSETTINGS_SCHEMA_DIR"@,
        "GST_REGISTRY_REUSE_PLUGIN_SCANNER"@,
        "GST_PLUGIN_SYSTEM_PATH"@,
        "GST_PLUGIN_SYSTEM_PATH_1_0"@,
        "GST_PLUGIN_PATH_1_0"@,
        "GST_PLUGIN_SCANNER_1_0"@,
        "GST_PTP_HELPER_1_0"@,
    ]
}

/// The variables that an AppImage puts entries of its own in front of. An
/// emulator gets them without those entries.
pub open spec fn appimage_prefixed() -> Seq<Seq<char>> {
    seq!["PATH"@, "XDG_DATA_DIRS"@, "PERLLIB"@, "PYTHONPATH"@, "QT_PLUGIN_PATH"@]
}

/// The variables that an AppImage points into itself.
pub fn appimage_only_vars() -> (r: Vec<&'static str>)
    ensures
        text::strs(r@) == appimage_only(),
{
    let out: Vec<&'static str> = vec![
        "LD_LIBRARY_PATH",
        "LD_PRELOAD",
        "APPDIR",
        "APPIMAGE",
        "OWD",
        "ARGV0",
        "PYTHONHOME",
        "GDK_BACKEND",
        "GTK_DATA_PREFIX",
        "GTK_THEME",
        "GTK_EXE_PREFIX",
        "GTK_PATH",
        "GTK_IM_MODULE_FILE",
        "GDK_PIXBUF_MODULE_FILE",
        "GIO_EXTRA_MODULES",
        "GSETTINGS_SCHEMA_DIR",
        "GST_REGISTRY_REUSE_PLUGIN_SCANNER",
        "GST_PLUGIN_SYSTEM_PATH",
        "GST_PLUGIN_SYSTEM_PATH_1_0",
        "GST_PLUGIN_PATH_1_0",
        "GST_PLUGIN_SCANNER_1_0",
        "GST_PTP_HELPER_1_0",
    ];
    assert(text::strs(out@) =~= appimage_only());
    out
}

/// The variables that an AppImage puts entries of its own in front of.
pub fn appimage_prefixed_path_vars() -> (r: Vec<&'static str>)
    ensures
        text::strs(r@) == appimage_prefixed(),
{
    let out: Vec<&'static str> = vec![
        "PATH",
        "XDG_DATA_DIRS",
        "PERLLIB",
        "PYTHONPATH",
        "QT_PLUGIN_PATH",
    ];
    assert(text::strs(out@) =~= appimage_prefixed());
    out
}

/// The entries among the first `n` that are not the AppImage's.
pub open spec fn host_entries(entries: Seq<Seq<char>>, appdir: Seq<char>, n: int) -> Seq<Seq<char>>
    decreases n,
{
    if n <= 0 {
        Seq::<Seq<char>>::empty()
    } else if entries[n - 1].len() > 0 && !crate::fspath::lies_in(entries[n - 1], appdir) {
        host_entries(entries, appdir, n - 1).push(entries[n - 1])
    } else {
        host_entries(entries, appdir, n - 1)
    }
}

/// What is left of a list of paths without the AppImage's entries; nothing where
/// it has no others.
pub open spec fn host_half(value: Seq<char>, appdir: Seq<char>) -> Option<Seq<char>> {
    let all = text::split(value, ':');
    let kept = host_entries(all, appdir, all.len() as int);
    if kept.len() == 0 {
        None
    } else {
        Some(text::join(kept, ":"@))
    }
}

/// Drops the AppImage's entries from a list of paths.
pub fn strip_appdir_entries(value: &str, appdir: &str) -> (r: Option<String>)
    ensures
        text::opt(r) == host_half(value@, appdir@),
{
    let chars = chars_of(value);
    let entries = split_on(chars.as_slice(), ':');
    let ghost all = text::split(value@, ':');
    let mut kept: Vec<String> = Vec::new();
    let mut i: usize = 0;
    assert(text::texts(kept@) =~= host_entries(all, appdir@, 0));
    while i < entries.len()
        invariant
            i <= entries@.len(),
            text::texts(entries@) == all,
            text::texts(kept@) == host_entries(all, appdir@, i as int),
        decreases entries@.len() - i,
    {
        let e = entries[i].as_str();
        assert(all[i as int] == e@);
        if chars_of(e).len() > 0 && !path_lies_in(e, appdir) {
            let ghost done = text::texts(kept@);
            kept.push(copy(e));
            assert(text::texts(kept@) =~= done.push(e@));
        }
        i += 1;
    }
    if kept.len() == 0 {
        None
    } else {
        Some(join_texts(&kept, ":"))
    }
}

proof fn lemma_host_entries_outside(entries: Seq<Seq<char>>, appdir: Seq<char>, n: int)
    requires
        0 <= n <= entries.len(),
    ensures
        forall|i: int|
            0 <= i < host_entries(entries, appdir, n).len() ==> !crate::fspath::lies_in(
                #[trigger] host_entries(entries, appdir, n)[i],
                appdir,
            ),
    decreases n,
{
    if n > 0 {
        lemma_host_entries_outside(entries, appdir, n - 1);
        let before = host_entries(entries, appdir, n - 1);
        let now = host_entries(entries, appdir, n);
        assert forall|i: int| 0 <= i < now.len() implies !crate::fspath::lies_in(
            #[trigger] now[i],
            appdir,
        ) by {
            if i < before.len() {
                assert(now[i] == before[i]);
            }
        }
    }
}

/// No entry that is kept lies in the AppImage.
pub proof fn law_no_appimage_entry_is_kept(value: Seq<char>, appdir: Seq<char>, i: int)
    requires
        0 <= i < host_entries(text::split(value, ':'), appdir, text::split(value, ':').len() as int).len(),
    ensures
        !crate::fspath::lies_in(
            host_entries(text::split(value, ':'), appdir, text::split(value, ':').len() as int)[i],
            appdir,
        ),
{
    lemma_host_entries_outside(text::split(value, ':'), appdir, text::split(value, ':').len() as int);
}

/// A game is launched where it is installed, does not run and, with DOSBox, has a conf; and
/// only there.
pub proof fn law_what_is_launched(game: Game, runs: bool)
    ensures
        launch_refusal(game, runs) is None <==> game.installed && !runs && (launch_pipeline(game)
            != Launcher::DosBox || game.dosbox_conf is Some),
        !game.installed ==> launch_refusal(game, runs) == Some(LaunchRefusal::NotInstalled),
        game.installed && runs ==> launch_refusal(game, runs) == Some(LaunchRefusal::Running),
{
}

/// Windows 9x games are launched with their emulator, ScummVM games with ScummVM, and all
/// others with DOSBox.
pub proof fn law_which_emulator_a_game_gets(game: Game)
    ensures
        game.torrent_source is None ==> launch_pipeline(game) == Launcher::DosBox,
        game.torrent_source matches Some(s) ==> (launch_pipeline(game) == Launcher::Win9x <==> s@
            == "eXoWin9x"@) && (launch_pipeline(game) == Launcher::ScummVm <==> s@
            == "eXoScummVM"@),
{
    crate::collections::law_launchers();
    crate::collections::law_other_sources(crate::install::source_of(game));
    reveal_strlit("eXoWin9x");
    reveal_strlit("eXoScummVM");
    reveal_strlit("eXoDOS");
    assert("eXoDOS"@.len() == 6 && "eXoWin9x"@.len() == 8 && "eXoScummVM"@.len() == 10);
}

/// A game's conf is looked for first where the catalogue says, and then, under the name of its
/// directory, in those of all languages.
pub proof fn law_where_a_conf_is_looked_for(root: Seq<char>, above: Seq<char>, code: Seq<char>)
    requires
        !above.contains('\\'),
        !code.contains('\\'),
        !code.contains('/'),
        code.len() > 0,
    ensures
        ({
            let places = conf_places(root, above + "/"@ + code + "/dosbox.conf"@);
            &&& places[0] == crate::fspath::joined(root, above + "/"@ + code + "/dosbox.conf"@)
            &&& places.contains(
                crate::fspath::joined(root, "eXo/eXoDOS/!dos/!german/"@ + code + "/dosbox.conf"@),
            )
            &&& places.contains(
                crate::fspath::joined(root, "eXo/eXoDOS/!dos/!polish/"@ + code + "/dosbox.conf"@),
            )
            &&& places.contains(
                crate::fspath::joined(root, "eXo/eXoDOS/!dos/!spanish/"@ + code + "/dosbox.conf"@),
            )
        }),
{
    reveal_strlit("/");
    reveal_strlit("/dosbox.conf");
    reveal_strlit("eXo/eXoDOS");
    reveal_strlit("!dos");
    reveal_strlit("!german");
    reveal_strlit("!polish");
    reveal_strlit("!spanish");
    reveal_strlit("eXo/eXoDOS/!dos/!german/");
    reveal_strlit("eXo/eXoDOS/!dos/!polish/");
    reveal_strlit("eXo/eXoDOS/!dos/!spanish/");
    let conf = above + "/"@ + code + "/dosbox.conf"@;
    assert forall|i: int| 0 <= i < conf.len() implies #[trigger] conf[i] != '\\' by {
        if i < above.len() {
            assert(above.contains(above[i]));
        } else if i > above.len() && i < above.len() + 1 + code.len() {
            assert(code.contains(code[i - above.len() - 1]));
        }
    }
    let rel = text::swap_char(conf, '\\', '/');
    assert(rel =~= conf);
    let dir = above + "/"@ + code;
    assert(conf.subrange(dir.len() as int, conf.len() as int) =~= "/dosbox.conf"@);
    assert(conf.take(dir.len() as int) =~= dir);
    text::lemma_last_char(dir, '/');
    assert(dir[above.len() as int] == '/');
    assert forall|k: int| above.len() < k < dir.len() implies #[trigger] dir[k] != '/' by {
        assert(code.contains(code[k - above.len() - 1]));
    }
    assert(text::last_char(dir, '/') == Some(above.len() as int));
    assert(dir.skip(above.len() as int + 1) =~= code);
    assert(conf_code(rel) == Some(code));
    reveal_with_fuel(lang_confs, 8);
    let all = crate::collections::collections();
    assert(all[0] == crate::collections::glp() && all[1] == crate::collections::plp() && all[2]
        == crate::collections::slp() && all[3] == crate::collections::dos() && all[4]
        == crate::collections::win3x() && all[5] == crate::collections::win9x() && all[6]
        == crate::collections::scummvm());
    let places = conf_places(root, conf);
    let base = "eXo/eXoDOS"@ + "/"@ + "!dos"@ + "/"@;
    assert(base + "!german"@ + "/"@ + code + "/dosbox.conf"@ =~= "eXo/eXoDOS/!dos/!german/"@ + code
        + "/dosbox.conf"@);
    assert(base + "!polish"@ + "/"@ + code + "/dosbox.conf"@ =~= "eXo/eXoDOS/!dos/!polish/"@ + code
        + "/dosbox.conf"@);
    assert(base + "!spanish"@ + "/"@ + code + "/dosbox.conf"@ =~= "eXo/eXoDOS/!dos/!spanish/"@
        + code + "/dosbox.conf"@);
    assert(places[1] == crate::fspath::joined(
        root,
        "eXo/eXoDOS/!dos/!german/"@ + code + "/dosbox.conf"@,
    ));
    assert(places[2] == crate::fspath::joined(
        root,
        "eXo/eXoDOS/!dos/!polish/"@ + code + "/dosbox.conf"@,
    ));
    assert(places[3] == crate::fspath::joined(
        root,
        "eXo/eXoDOS/!dos/!spanish/"@ + code + "/dosbox.conf"@,
    ));
}

/// A game's own settings reach its conf: the speed, the screen, the shader where it is one of
/// Staging's, and its own lines at the end.
pub proof fn law_own_settings_reach_the_conf(cfg: Seq<ConfigEntry>, use_ece: bool, v: Seq<char>)
    ensures
        setting(cfg, "cycles"@) == Some(v) ==> text::has(
            game_conf(cfg, use_ece),
            "[cpu]\ncycles = "@ + v + "\n"@,
        ),
        setting(cfg, "fullscreen"@) == Some(v) ==> text::has(
            game_conf(cfg, use_ece),
            "[sdl]\nfullscreen = "@ + v + "\n"@,
        ),
        setting(cfg, "glshader"@) == Some(v) && v != "default"@ && !use_ece ==> text::has(
            game_conf(cfg, use_ece),
            "[render]\nglshader = "@ + v + "\n"@,
        ),
        setting(cfg, "custom_conf"@) == Some(v) && text::trim(v).len() > 0 ==> ("\n"@ + text::trim(v)
            + "\n"@).is_suffix_of(game_conf(cfg, use_ece)),
        setting(cfg, "cycles"@) is None && setting(cfg, "fullscreen"@) is None && setting(
            cfg,
            "glshader"@,
        ) is None && setting(cfg, "custom_conf"@) is None ==> game_conf(cfg, use_ece).len() == 0,
{
    let shader = match setting(cfg, "glshader"@) {
        Some(g) if g != "default"@ && !use_ece => Some(g),
        _ => None,
    };
    let a = setting_section("[sdl]\nfullscreen = "@, setting(cfg, "fullscreen"@));
    let b = setting_section("[render]\nglshader = "@, shader);
    let c = setting_section("[cpu]\ncycles = "@, setting(cfg, "cycles"@));
    let all = game_conf(cfg, use_ece);
    let x = a.len() as int;
    let y = x + b.len();
    assert(all.subrange(0, x) =~= a);
    assert(all.subrange(x, y) =~= b);
    assert(all.subrange(y, y + c.len()) =~= c);
    text::lemma_has(all, a, 0);
    text::lemma_has(all, b, x);
    text::lemma_has(all, c, y);
    if setting(cfg, "custom_conf"@) == Some(v) && text::trim(v).len() > 0 {
        let own = "\n"@ + text::trim(v) + "\n"@;
        assert(all.subrange(all.len() - own.len(), all.len() as int) =~= own);
    }
}

/// ECE knows no shaders: whatever shader was chosen, its conf is the same.
pub proof fn law_ece_gets_no_shader(a: Seq<ConfigEntry>, b: Seq<ConfigEntry>, crt: bool, full: bool)
    requires
        setting(a, "cycles"@) == setting(b, "cycles"@),
        setting(a, "fullscreen"@) == setting(b, "fullscreen"@),
        setting(a, "custom_conf"@) == setting(b, "custom_conf"@),
    ensures
        game_conf(a, true) == game_conf(b, true),
        global_conf(true, crt, full) == global_conf(true, !crt, full),
        text::has(
            global_conf(false, crt, full),
            if crt {
                "glshader = crt-auto\n"@
            } else {
                "glshader = sharp\n"@
            },
        ),
        (if full {
            "[sdl]\nfullscreen = true\n"@
        } else {
            "[sdl]\nfullscreen = false\n"@
        }).is_prefix_of(global_conf(false, crt, full)),
{
    reveal_strlit("[sdl]\nfullscreen = ");
    reveal_strlit("true");
    reveal_strlit("false");
    reveal_strlit("\n");
    reveal_strlit("[sdl]\nfullscreen = true\n");
    reveal_strlit("[sdl]\nfullscreen = false\n");
    reveal_strlit("[render]\nglshader = ");
    reveal_strlit("crt-auto");
    reveal_strlit("sharp");
    reveal_strlit("glshader = crt-auto\n");
    reveal_strlit("glshader = sharp\n");
    let all = global_conf(false, crt, full);
    let screen = "[sdl]\nfullscreen = "@ + (if full {
        "true"@
    } else {
        "false"@
    }) + "\n"@;
    let want = if crt {
        "glshader = crt-auto\n"@
    } else {
        "glshader = sharp\n"@
    };
    let at = screen.len() as int + 9;
    assert(all.subrange(at, at + want.len()) =~= want);
    text::lemma_has(all, want, at);
    let first = if full {
        "[sdl]\nfullscreen = true\n"@
    } else {
        "[sdl]\nfullscreen = false\n"@
    };
    assert(all.take(first.len() as int) =~= first);
}

/// A DOS game is launched from the directory of the collections, and the files of a translation
/// are those in the directory of its language.
pub proof fn law_where_a_launch_works(game: Game, root: Seq<char>)
    requires
        game.torrent_source is Some,
    ensures
        (game.torrent_source->0)@ == "eXoDOS"@ ==> lp_place(game, root) is None && working_place(
            game,
            root,
        ) == crate::fspath::joined(root, "eXo"@),
        (game.torrent_source->0)@ == "eXoDOS_GLP"@ ==> working_place(game, root)
            == crate::fspath::joined(root, "eXo"@) && (lp_place(game, root) matches Some(p) && p.lang_dir
            == "!german"@ && p.folder == "eXoDOS"@ && p.shortcode == code_of(game) && p.dir
            == crate::fspath::joined(root, "eXo/eXoDOS/!german/"@ + code_of(game))),
{
    crate::collections::law_the_language_packs_share_the_dos_games();
    reveal_strlit("eXo/eXoDOS");
    reveal_strlit("eXo");
    reveal_strlit("eXoDOS");
    reveal_strlit("/");
    reveal_strlit("!german");
    reveal_strlit("eXo/eXoDOS/!german/");
    let p = "eXo/eXoDOS"@;
    text::lemma_split_two("eXo"@, "eXoDOS"@, '/');
    assert("eXo"@.push('/') + "eXoDOS"@ =~= p);
    assert("eXo/eXoDOS"@ + "/"@ + "!german"@ + "/"@ + code_of(game) =~= "eXo/eXoDOS/!german/"@
        + code_of(game));
}

/// ECE runs a game only on Windows and only where the game is tuned for it.
pub proof fn law_ece_runs_its_own_games(variant: Option<Seq<char>>, root: Seq<char>, windows: bool)
    ensures
        ece_places(variant, root, windows).len() > 0 <==> windows && (variant matches Some(v)
            && "ece"@.is_prefix_of(v)),
        variant matches Some(v) ==> ece_places(variant, root, windows).len() > 0 ==> ece_places(
            variant,
            root,
            windows,
        )[0] == crate::fspath::joined(
            crate::fspath::joined(crate::fspath::joined(root, "eXo/emulators/dosbox"@), v),
            "DOSBox.exe"@,
        ),
{
}

/// All entries of the system's stay in a list of paths that the AppImage has added to, in their
/// order.
pub proof fn law_the_systems_entries_stay(
    entries: Seq<Seq<char>>,
    appdir: Seq<char>,
    n: int,
    i: int,
)
    requires
        0 <= i < n <= entries.len(),
        entries[i].len() > 0,
        !crate::fspath::lies_in(entries[i], appdir),
    ensures
        host_entries(entries, appdir, n).contains(entries[i]),
    decreases n,
{
    let now = host_entries(entries, appdir, n);
    let before = host_entries(entries, appdir, n - 1);
    if i < n - 1 {
        law_the_systems_entries_stay(entries, appdir, n - 1, i);
        let w = choose|w: int| 0 <= w < before.len() && before[w] == entries[i];
        assert(now[w] == entries[i]);
    } else {
        assert(now[before.len() as int] == entries[i]);
    }
}

} // verus!
