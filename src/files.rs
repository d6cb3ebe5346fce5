//! Replies of the single-file commands.
use vstd::prelude::*;

verus! {

/// The text handed back for a file read: the file's content when the read
/// succeeded (`Some`), and an empty string on any failure (`None`), so that a
/// failed read looks like an empty file.
pub fn read_reply(contents: Option<String>) -> (r: String)
    ensures
        r@ == match contents {
            Some(c) => c@,
            None => Seq::<char>::empty(),
        },
{
    match contents {
        Some(c) => c,
        None => String::new(),
    }
}

/// The reply of a file write: `Ok(())` when the write succeeded, otherwise an
/// error that carries an empty message (the cause is discarded).
pub fn write_reply(written: bool) -> (r: Result<(), String>)
    ensures
        written <==> r is Ok,
        r matches Err(m) ==> m@.len() == 0,
{
    if written {
        Ok(())
    } else {
        Err(String::new())
    }
}

} // verus!
