//! How far a flush goes.

use vstd::prelude::*;
use vstd::string::*;

verus! {

/// How far `persist` flushes what was written.
#[derive(Clone, Copy, PartialEq, Eq, Structural, Debug)]
pub enum PersistMode {
    /// To the operating system: survives a crash of the process.
    Buffer,
    /// To the disk, data only: survives a loss of power.
    SyncData,
    /// To the disk, with the file's metadata.
    SyncAll,
}

/// The mode that a caller's word stands for; no word stands for the default.
pub open spec fn mode_named(word: Option<Seq<char>>) -> Option<PersistMode> {
    match word {
        None => Some(PersistMode::SyncData),
        Some(w) => if w == "sync-data"@ {
            Some(PersistMode::SyncData)
        } else if w == "buffer"@ {
            Some(PersistMode::Buffer)
        } else if w == "sync-all"@ {
            Some(PersistMode::SyncAll)
        } else {
            None
        },
    }
}

/// What a caller is told about a word that stands for no mode.
pub open spec fn invalid_mode_text(word: Seq<char>) -> Seq<char> {
    "invalid persist mode: '"@ + word
        + "' (expected 'buffer', 'sync-data', or 'sync-all')"@
}

/// The view of an optional text.
pub open spec fn text_of(s: Option<&str>) -> Option<Seq<char>> {
    match s {
        Some(text) => Some(text@),
        None => None,
    }
}

/// The three words stand for the three modes, no word stands for `sync-data`, and no other word
/// stands for any mode.
pub proof fn words_stand_for_their_modes(word: Seq<char>)
    ensures
        mode_named(None) == Some(PersistMode::SyncData),
        mode_named(Some(word)) == Some(PersistMode::SyncData) <==> word == "sync-data"@,
        mode_named(Some(word)) == Some(PersistMode::Buffer) <==> word == "buffer"@,
        mode_named(Some(word)) == Some(PersistMode::SyncAll) <==> word == "sync-all"@,
        mode_named(Some(word)) is None <==> word != "sync-data"@ && word != "buffer"@ && word
            != "sync-all"@,
{
    reveal_strlit("sync-data");
    reveal_strlit("buffer");
    reveal_strlit("sync-all");
    assert("sync-data"@.len() == 9 && "buffer"@.len() == 6 && "sync-all"@.len() == 8);
}

/// A refused word is named, in quotes, between what is wrong and what would be right.
pub proof fn a_refused_word_is_named(word: Seq<char>)
    ensures
        invalid_mode_text(word) == "invalid persist mode: '"@ + word
            + "' (expected 'buffer', 'sync-data', or 'sync-all')"@,
{
}

/// A text is read as it is.
pub proof fn a_text_is_read_as_it_is(text: &str)
    ensures
        text_of(Some(text)) == Some(text@),
        text_of(None) is None,
{
}

/// Whether two texts are the same.
fn same_text(a: &str, b: &str) -> (yes: bool)
    ensures
        yes == (a@ == b@),
{
    String::from_str(a) == String::from_str(b)
}

/// Reads a persist mode; on any other word the reason names the word and the modes there are.
pub fn parse_persist_mode(s: Option<&str>) -> (result: Result<PersistMode, String>)
    ensures
        match mode_named(text_of(s)) {
            Some(mode) => result == Ok::<PersistMode, String>(mode),
            None => result matches Err(reason) && reason@ == invalid_mode_text(s->0@),
        },
        s is None ==> result == Ok::<PersistMode, String>(PersistMode::SyncData),
        s matches Some(word) ==> {
            &&& word@ == "sync-data"@ ==> result == Ok::<PersistMode, String>(
                PersistMode::SyncData,
            )
            &&& word@ == "buffer"@ ==> result == Ok::<PersistMode, String>(PersistMode::Buffer)
            &&& word@ == "sync-all"@ ==> result == Ok::<PersistMode, String>(PersistMode::SyncAll)
            &&& result is Err <==> word@ != "sync-data"@ && word@ != "buffer"@ && word@
                != "sync-all"@
        },
{
    proof {
        if let Some(word) = s {
            words_stand_for_their_modes(word@);
        }
    }
    match s {
        None => Ok(PersistMode::SyncData),
        Some(word) => {
            if same_text(word, "sync-data") {
                Ok(PersistMode::SyncData)
            } else if same_text(word, "buffer") {
                Ok(PersistMode::Buffer)
            } else if same_text(word, "sync-all") {
                Ok(PersistMode::SyncAll)
            } else {
                let mut reason = String::from_str("invalid persist mode: '");
                reason.append(word);
                reason.append("' (expected 'buffer', 'sync-data', or 'sync-all')");
                Err(reason)
            }
        },
    }
}

} // verus!
