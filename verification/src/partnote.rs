//! Notes kept on a part: text, or a file such as a photo.

use vstd::prelude::*;
use crate::part::PartId;
use crate::timestamp::Timestamp;
use crate::text::{text_eq, starts_with_text};

verus! {

/// Whether a note is plain text or an attached file.
#[derive(Clone, Copy, Debug, PartialEq, Eq, Structural, Hash)]
pub enum NoteKind {
    Text,
    File,
}

/// The id of a note.
#[derive(Clone, Copy, Debug, PartialEq, Eq, Structural, Hash, PartialOrd, Ord)]
pub struct PartNoteId(pub i32);

impl From<i32> for PartNoteId {
    fn from(id: i32) -> (r: PartNoteId) {
        PartNoteId(id)
    }
}

impl vstd::std_specs::convert::FromSpecImpl<i32> for PartNoteId {
    open spec fn obeys_from_spec() -> bool {
        true
    }

    open spec fn from_spec(id: i32) -> PartNoteId {
        PartNoteId(id)
    }
}

/// A note on a part.
#[derive(Clone, Debug)]
pub struct PartNote {
    pub id: PartNoteId,
    pub part: PartId,
    pub kind: NoteKind,
    pub name: String,
    pub mime: Option<String>,
    pub filename: Option<String>,
    pub size: Option<i64>,
    pub created: Timestamp,
}

/// Whether a media type names an image.
pub open spec fn image_mime(m: Seq<char>) -> bool {
    6 <= m.len() && m.subrange(0, 6) == "image/"@
}

impl PartNote {
    /// Whether the note is a file whose media type is an image.
    pub fn is_image(&self) -> (r: bool)
        ensures
            r == (self.kind == NoteKind::File && (self.mime matches Some(m) && image_mime(m@))),
    {
        proof { reveal_strlit("image/"); }
        if self.kind != NoteKind::File {
            return false;
        }
        match &self.mime {
            Some(m) => starts_with_text(m.as_str(), "image/"),
            None => false,
        }
    }
}

/// A note row: the kind is kept as text.
#[derive(Clone, Debug)]
pub struct DbPartNote {
    pub id: i32,
    pub part: i32,
    pub kind: String,
    pub name: String,
    pub mime: Option<String>,
    pub filename: Option<String>,
    pub size: Option<i64>,
    pub created: Timestamp,
}

/// The kind a stored kind text stands for: "file" is a file, anything
/// else text.
pub open spec fn note_kind(k: Seq<char>) -> NoteKind {
    if k == "file"@ { NoteKind::File } else { NoteKind::Text }
}

/// The note a row stands for.
pub open spec fn db_note(d: DbPartNote) -> PartNote {
    PartNote {
        id: PartNoteId(d.id),
        part: PartId(d.part),
        kind: note_kind(d.kind@),
        name: d.name,
        mime: d.mime,
        filename: d.filename,
        size: d.size,
        created: d.created,
    }
}

impl From<DbPartNote> for PartNote {
    fn from(db: DbPartNote) -> (r: PartNote) {
        let kind = if text_eq(db.kind.as_str(), "file") { NoteKind::File } else { NoteKind::Text };
        PartNote {
            id: PartNoteId(db.id),
            part: PartId(db.part),
            kind,
            name: db.name,
            mime: db.mime,
            filename: db.filename,
            size: db.size,
            created: db.created,
        }
    }
}

impl vstd::std_specs::convert::FromSpecImpl<DbPartNote> for PartNote {
    open spec fn obeys_from_spec() -> bool {
        true
    }

    open spec fn from_spec(db: DbPartNote) -> PartNote {
        db_note(db)
    }
}

} // verus!
