use vstd::prelude::*;

verus! {

/// One note as the store holds it. Times are seconds since the Unix epoch.
pub struct Note {
    pub id: i64,
    pub content: String,
    pub created_at: u64,
    pub updated_at: Option<u64>,
    pub user_id: String,
}

impl Note {
    /// A field-by-field copy of the note.
    pub fn copy_note(&self) -> (r: Note)
        ensures
            r == *self,
    {
        Note {
            id: self.id,
            content: self.content.clone(),
            created_at: self.created_at,
            updated_at: self.updated_at,
            user_id: self.user_id.clone(),
        }
    }
}

} // verus!
