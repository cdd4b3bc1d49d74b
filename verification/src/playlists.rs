//! The names of playlists.

use crate::text;
use crate::text::{
    cat3, chars_of, copy, string_of, trim_of,
};
use vstd::prelude::*;

verus! {

/// What a playlist is called when it is created or renamed: the name without the
/// blanks around it. A blank name is refused.
pub fn playlist_name(name: &str) -> (r: Result<String, String>)
    ensures
        match r {
            Ok(kept) => kept@ == text::trim(name@) && kept@.len() > 0,
            Err(message) => text::trim(name@).len() == 0 && message@ == "Playlist name cannot be empty"@,
        },
{
    let chars = chars_of(name);
    let kept = trim_of(chars.as_slice());
    if kept.len() == 0 {
        Err(copy("Playlist name cannot be empty"))
    } else {
        Ok(string_of(kept))
    }
}

/// What to say of a playlist that could not be stored: that its name is taken
/// where the store refused it as a duplicate, and the store's own words otherwise.
pub fn name_conflict(name: &str, taken: bool, error: &str) -> (r: String)
    ensures
        r@ == if taken {
            "A playlist named \""@ + name@ + "\" already exists"@
        } else {
            error@
        },
{
    if taken {
        cat3("A playlist named \"", name, "\" already exists")
    } else {
        copy(error)
    }
}

} // verus!
