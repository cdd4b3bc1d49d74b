//! Where things live: the program's own directories, and the one directory that
//! holds the files of every collection.

use crate::fspath::{file_name_of, join_path, parent_of, path_lies_in};
use crate::scummvm::Os;
use crate::text;
use crate::text::{
    borrow, cat3, chars_of, copy, has_prefix, has_suffix, is_one_of, same, string_of,
    swap_chars, trim_of,
};
use vstd::prelude::*;

verus! {

/// The root folder of a fresh install.
pub const DEFAULT_ROOT_FOLDER: &'static str = "eXoDOS";

/// The root folder that means the data directory itself: a name always stands
/// for a directory below it.
pub const ROOT_IS_DATA_DIR: &'static str = ".";

/// What a session knows of its places.
pub struct Places {
    /// The directory of the bundled resources.
    pub resource_dir: Option<String>,
    pub log_dir: Option<String>,
    /// The folder of the games inside the data directory.
    pub root_folder: Option<String>,
}

impl Places {
    /// Nothing is known yet.
    pub fn new() -> (r: Places)
        ensures
            r.resource_dir is None,
            r.log_dir is None,
            r.root_folder is None,
    {
        Places { resource_dir: None, log_dir: None, root_folder: None }
    }
}

/// Sets the directory of the bundled resources. The first one stays.
pub fn init_resource_dir(places: &mut Places, dir: &str)
    ensures
        text::opt(final(places).resource_dir) == (match text::opt(old(places).resource_dir) {
            Some(d) => Some(d),
            None => Some(dir@),
        }),
        final(places).log_dir == old(places).log_dir,
        final(places).root_folder == old(places).root_folder,
{
    if places.resource_dir.is_none() {
        places.resource_dir = Some(copy(dir));
    }
}

/// Sets the directory of the logs. The first one stays.
pub fn init_log_dir(places: &mut Places, dir: &str)
    ensures
        text::opt(final(places).log_dir) == (match text::opt(old(places).log_dir) {
            Some(d) => Some(d),
            None => Some(dir@),
        }),
        final(places).resource_dir == old(places).resource_dir,
        final(places).root_folder == old(places).root_folder,
{
    if places.log_dir.is_none() {
        places.log_dir = Some(copy(dir));
    }
}

/// Sets the root folder. The last one counts.
pub fn set_root_folder(places: &mut Places, name: &str)
    ensures
        text::opt(final(places).root_folder) == Some(name@),
        final(places).resource_dir == old(places).resource_dir,
        final(places).log_dir == old(places).log_dir,
{
    places.root_folder = Some(copy(name));
}

/// The name of the root folder.
pub open spec fn root_name(root_folder: Option<Seq<char>>) -> Seq<char> {
    match root_folder {
        Some(name) => name,
        None => DEFAULT_ROOT_FOLDER@,
    }
}

/// The directory of the games in a data directory.
pub open spec fn root_dir(root_folder: Option<Seq<char>>, data_dir: Seq<char>) -> Seq<char> {
    if root_name(root_folder) == ROOT_IS_DATA_DIR@ {
        data_dir
    } else {
        crate::fspath::joined(data_dir, root_name(root_folder))
    }
}

/// The directory that holds the files of every collection.
pub fn game_root(places: &Places, data_dir: &str) -> (r: String)
    ensures
        r@ == root_dir(text::opt(places.root_folder), data_dir@),
{
    let name = match borrow(&places.root_folder) {
        Some(n) => n,
        None => DEFAULT_ROOT_FOLDER,
    };
    if same(name, ROOT_IS_DATA_DIR) {
        copy(data_dir)
    } else {
        join_path(data_dir, name)
    }
}

/// A stored root folder counts unless it is blank.
pub open spec fn is_root_folder(stored: Option<Seq<char>>) -> bool {
    match stored {
        Some(name) => text::trim(name).len() > 0,
        None => false,
    }
}

fn has_root_folder(stored: Option<&str>) -> (r: bool)
    ensures
        r == is_root_folder(text::opt_ref(stored)),
{
    match stored {
        Some(name) => trim_of(chars_of(name).as_slice()).len() > 0,
        None => false,
    }
}

/// Whether an install keeps its games at the level of the data directory, and so
/// makes the data directory its root: it has stored no root folder, and `eXo`
/// stands in the data directory.
pub fn repair_legacy_root(stored: Option<&str>, data_dir: Option<&str>, exo_there: bool) -> (r:
    Option<&'static str>)
    ensures
        text::opt_ref(r) == if !is_root_folder(text::opt_ref(stored)) && data_dir is Some && exo_there {
            Some(ROOT_IS_DATA_DIR@)
        } else {
            None
        },
{
    if !has_root_folder(stored) && data_dir.is_some() && exo_there {
        Some(ROOT_IS_DATA_DIR)
    } else {
        None
    }
}

/// Takes up the stored root folder, and hands back the one to store in its place
/// where the install has the games at the level of its data directory.
pub fn load_root_folder(
    places: &mut Places,
    stored: Option<&str>,
    data_dir: Option<&str>,
    exo_there: bool,
) -> (r: Option<&'static str>)
    ensures
        text::opt_ref(r) == if !is_root_folder(text::opt_ref(stored)) && data_dir is Some && exo_there {
            Some(ROOT_IS_DATA_DIR@)
        } else {
            None
        },
        text::opt(final(places).root_folder) == Some(
            if is_root_folder(text::opt_ref(stored)) {
                text::opt_ref(stored)->0
            } else if r is Some {
                ROOT_IS_DATA_DIR@
            } else {
                DEFAULT_ROOT_FOLDER@
            },
        ),
        final(places).resource_dir == old(places).resource_dir,
        final(places).log_dir == old(places).log_dir,
{
    let repaired = repair_legacy_root(stored, data_dir, exo_there);
    let kept = has_root_folder(stored);
    match stored {
        Some(name) if kept => set_root_folder(places, name),
        _ => if repaired.is_some() {
            set_root_folder(places, ROOT_IS_DATA_DIR)
        } else {
            set_root_folder(places, DEFAULT_ROOT_FOLDER)
        },
    }
    repaired
}

/// A file that an operating system leaves in a folder on its own.
pub open spec fn os_metadata(path: Seq<char>) -> bool {
    match crate::fspath::file_name(path) {
        Some(name) => name == ".DS_Store"@ || name == "Thumbs.db"@ || name == "desktop.ini"@
            || "._"@.is_prefix_of(name),
        None => false,
    }
}

/// Whether an operating system leaves such a file on its own.
pub fn is_os_metadata(path: &str) -> (r: bool)
    ensures
        r == os_metadata(path@),
{
    match file_name_of(path) {
        Some(name) => same(name.as_str(), ".DS_Store") || same(name.as_str(), "Thumbs.db") || same(
            name.as_str(),
            "desktop.ini",
        ) || has_prefix(chars_of(name.as_str()).as_slice(), "._"),
        None => false,
    }
}

/// The path with forward slashes.
pub fn path_to_fwd_slash(path: &str) -> (r: String)
    ensures
        r@ == text::swap_char(path@, '\\', '/'),
{
    string_of(swap_chars(chars_of(path).as_slice(), '\\', '/').as_slice())
}

/// A path of the system's as the library takes it. Only Windows separates names with
/// backslashes; elsewhere one is part of a name.
pub open spec fn plain(os: Os, path: Seq<char>) -> Seq<char> {
    if os == Os::Windows {
        text::swap_char(path, '\\', '/')
    } else {
        path
    }
}

/// On this system `path` is `dir` or lies below it.
pub open spec fn lies_below(os: Os, path: Seq<char>, dir: Seq<char>) -> bool {
    crate::fspath::lies_in(plain(os, path), plain(os, dir))
}

/// Whether `path` is `dir` or lies below it, on this system. Both are real paths.
pub fn path_lies_below(os: Os, path: &str, dir: &str) -> (r: bool)
    ensures
        r == lies_below(os, path@, dir@),
{
    match os {
        Os::Windows => path_lies_in(
            path_to_fwd_slash(path).as_str(),
            path_to_fwd_slash(dir).as_str(),
        ),
        _ => path_lies_in(path, dir),
    }
}

/// A directory beside the one that the program was built in.
pub open spec fn dev_place(manifest_dir: Seq<char>, rel: Seq<char>) -> Seq<char> {
    match crate::fspath::parent(manifest_dir) {
        Some(dir) => crate::fspath::joined(dir, rel),
        None => Seq::<char>::empty(),
    }
}

/// A directory beside the one that the program was built in.
pub fn dev_path(manifest_dir: &str, rel: &str) -> (r: String)
    ensures
        r@ == dev_place(manifest_dir@, rel@),
{
    match parent_of(manifest_dir) {
        Some(dir) => join_path(dir.as_str(), rel),
        None => {
            let none = String::new();
            assert(none@ =~= Seq::<char>::empty());
            none
        },
    }
}

/// The directory of the bundled metadata: beside the program's sources, else in
/// its resources. `present` lists the paths that are on disk.
pub fn bundled_metadata_dir(places: &Places, manifest_dir: &str, present: &Vec<String>) -> (r:
    Result<String, String>)
    ensures
        match r {
            Ok(dir) => if text::texts(present@).contains(dev_place(manifest_dir@, "metadata"@)) {
                dir@ == dev_place(manifest_dir@, "metadata"@)
            } else {
                &&& places.resource_dir is Some
                &&& dir@ == crate::fspath::joined(text::opt(places.resource_dir)->0, "metadata"@)
                &&& text::texts(present@).contains(dir@)
            },
            Err(message) => {
                let dev = dev_place(manifest_dir@, "metadata"@);
                &&& !text::texts(present@).contains(dev)
                &&& match text::opt(places.resource_dir) {
                    Some(res) => {
                        &&& !text::texts(present@).contains(crate::fspath::joined(res, "metadata"@))
                        &&& message@ == "Bundled metadata not found in resource dir "@ + res
                            + " (dev path also missing: "@ + dev + ")"@
                    },
                    None => message@
                        == "Bundled metadata not found: resource_dir uninitialized and dev path "@
                        + dev + " missing"@,
                }
            },
        },
{
    let dev = dev_path(manifest_dir, "metadata");
    if is_one_of(present, dev.as_str()) {
        return Ok(dev);
    }
    match borrow(&places.resource_dir) {
        Some(res) => {
            let dir = join_path(res, "metadata");
            if is_one_of(present, dir.as_str()) {
                return Ok(dir);
            }
            let missing = cat3(
                "Bundled metadata not found in resource dir ",
                res,
                " (dev path also missing: ",
            );
            Err(cat3(missing.as_str(), dev.as_str(), ")"))
        },
        None => Err(
            cat3(
                "Bundled metadata not found: resource_dir uninitialized and dev path ",
                dev.as_str(),
                " missing",
            ),
        ),
    }
}

/// The path of a bundled torrent: beside the program's sources, else in its
/// resources. `present` lists the paths that are on disk.
pub fn bundled_torrent_path(
    places: &Places,
    manifest_dir: &str,
    filename: &str,
    present: &Vec<String>,
) -> (r: Result<String, String>)
    ensures
        ({
            let rel = crate::fspath::joined("torrents"@, filename@);
            let dev = dev_place(manifest_dir@, rel);
            match r {
                Ok(path) => if text::texts(present@).contains(dev) {
                    path@ == dev
                } else {
                    &&& places.resource_dir is Some
                    &&& path@ == crate::fspath::joined(text::opt(places.resource_dir)->0, rel)
                    &&& text::texts(present@).contains(path@)
                },
                Err(message) => {
                    &&& !text::texts(present@).contains(dev)
                    &&& places.resource_dir is Some ==> !text::texts(present@).contains(
                        crate::fspath::joined(text::opt(places.resource_dir)->0, rel),
                    )
                    &&& message@ == "Bundled torrent '"@ + filename@ + "' not found (dev path: "@
                        + dev + ")"@
                },
            }
        }),
{
    let rel = join_path("torrents", filename);
    let dev = dev_path(manifest_dir, rel.as_str());
    if is_one_of(present, dev.as_str()) {
        return Ok(dev);
    }
    if let Some(res) = borrow(&places.resource_dir) {
        let path = join_path(res, rel.as_str());
        if is_one_of(present, path.as_str()) {
            return Ok(path);
        }
    }
    let missing = cat3("Bundled torrent '", filename, "' not found (dev path: ");
    Err(cat3(missing.as_str(), dev.as_str(), ")"))
}

/// The names of confs, with a prefix where one is asked for.
pub open spec fn is_conf_name(prefix: Option<Seq<char>>) -> spec_fn(Seq<char>) -> bool {
    |name: Seq<char>|
        ".conf"@.is_suffix_of(name) && (match prefix {
            Some(p) => p.is_prefix_of(name),
            None => true,
        })
}

/// Of the names in a directory, those of the confs to remove from it.
pub fn remove_conf_files(names: &Vec<String>, prefix: Option<&str>) -> (r: Vec<String>)
    ensures
        text::texts(r@) == text::texts(names@).filter(is_conf_name(text::opt_ref(prefix))),
{
    let mut out: Vec<String> = Vec::new();
    let mut i: usize = 0;
    let ghost wanted = is_conf_name(text::opt_ref(prefix));
    proof {
        reveal(Seq::filter);
        assert(text::texts(names@).take(0).filter(wanted) =~= Seq::<Seq<char>>::empty());
    }
    assert(text::texts(out@) =~= Seq::<Seq<char>>::empty());
    while i < names.len()
        invariant
            i <= names@.len(),
            wanted == is_conf_name(text::opt_ref(prefix)),
            text::texts(out@) == text::texts(names@).take(i as int).filter(wanted),
        decreases names@.len() - i,
    {
        let chars = chars_of(names[i].as_str());
        let ghost done = text::texts(out@);
        let ghost here = text::texts(names@).take(i + 1);
        proof {
            reveal(Seq::filter);
            assert(here.drop_last() =~= text::texts(names@).take(i as int));
            assert(here.last() == names@[i as int]@);
        }
        let fits = has_suffix(chars.as_slice(), ".conf") && match prefix {
            Some(p) => has_prefix(chars.as_slice(), p),
            None => true,
        };
        if fits {
            out.push(copy(names[i].as_str()));
            assert(text::texts(out@) =~= done.push(names@[i as int]@));
        }
        i += 1;
    }
    assert(text::texts(names@).take(names@.len() as int) =~= text::texts(names@));
    out
}

/// Of the names in a data directory, those of the confs that earlier versions
/// left there: the ones that carry the program's prefix, and no other file.
pub fn sweep_legacy_launch_confs(names: &Vec<String>) -> (r: Vec<String>)
    ensures
        text::texts(r@) == text::texts(names@).filter(is_conf_name(Some("exodium_"@))),
{
    remove_conf_files(names, Some("exodium_"))
}

/// The games are looked for in the root folder that was set; one that was never set
/// counts as the default, and the one that means the data directory as that.
pub proof fn law_root_is_read_back(name: Seq<char>, data_dir: Seq<char>)
    ensures
        root_dir(Some(name), data_dir) == (if name == ROOT_IS_DATA_DIR@ {
            data_dir
        } else {
            crate::fspath::joined(data_dir, name)
        }),
        root_dir(None, data_dir) == root_dir(Some(DEFAULT_ROOT_FOLDER@), data_dir),
{
}

/// A sweep of a data directory leaves a game's own conf alone.
pub proof fn law_sweep_keeps_foreign_files(names: Seq<Seq<char>>, name: Seq<char>)
    requires
        !"exodium_"@.is_prefix_of(name) || !".conf"@.is_suffix_of(name),
    ensures
        !names.filter(is_conf_name(Some("exodium_"@))).contains(name),
{
    broadcast use Seq::lemma_filter_pred;

}

/// What the systems leave in folders on their own is told by its name alone, wherever it lies.
pub proof fn law_what_systems_leave_behind(path: Seq<char>, name: Seq<char>)
    requires
        crate::fspath::file_name(path) == Some(name),
    ensures
        name == ".DS_Store"@ || name == "Thumbs.db"@ || name == "desktop.ini"@ ==> os_metadata(path),
        name.len() >= 2 && name[0] == '.' && name[1] == '_' ==> os_metadata(path),
        os_metadata(path) ==> name == ".DS_Store"@ || name == "Thumbs.db"@ || name
            == "desktop.ini"@ || name.len() >= 2 && name[0] == '.' && name[1] == '_',
{
    reveal_strlit("._");
    if name.len() >= 2 && name[0] == '.' && name[1] == '_' {
        assert(name.take(2) =~= "._"@);
        assert(name.subrange(0, 2) =~= "._"@);
    }
    if "._"@.is_prefix_of(name) {
        assert(name.subrange(0, 2) =~= "._"@);
        assert(name[0] == name.subrange(0, 2)[0] && name[1] == name.subrange(0, 2)[1]);
    }
}

} // verus!
