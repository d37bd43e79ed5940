//! How episode and subscription records are written and read back.
use vstd::prelude::*;

verus! {

/// The state a new episode is recorded in: `active` when aria2 already took
/// it under a non-empty GID, else `pending`.
pub fn new_episode_status(gid: Option<&str>) -> (r: &'static str)
    ensures
        (match gid {
            Some(g) => g@.len() > 0,
            None => false,
        }) ==> r@ == "active"@,
        !(match gid {
            Some(g) => g@.len() > 0,
            None => false,
        }) ==> r@ == "pending"@,
{
    match gid {
        Some(g) => if g.is_empty() {
            "pending"
        } else {
            "active"
        },
        None => "pending",
    }
}

/// The GID a new episode is stored with: the empty string when there is none.
pub fn stored_gid(gid: Option<&str>) -> (r: &str)
    ensures
        r@ == (match gid {
            Some(g) => g@,
            None => Seq::<char>::empty(),
        }),
{
    match gid {
        Some(g) => g,
        None => {
            proof {
                reveal_strlit("");
            }
            ""
        },
    }
}

/// The id of an inserted episode: none when the insert was ignored because
/// the subscription already has an episode of that title.
pub fn inserted_episode(rows_changed: usize, id: String) -> (r: Option<String>)
    ensures
        rows_changed == 0 ==> r is None,
        rows_changed != 0 ==> r == Some(id),
{
    if rows_changed == 0 {
        None
    } else {
        Some(id)
    }
}

/// A boolean column read back: any non-zero value is true.
pub fn flag_column(v: i32) -> (r: bool)
    ensures
        r == (v != 0),
{
    v != 0
}

/// A boolean written to a column: 1 or 0.
pub fn column_of_flag(b: bool) -> (r: i32)
    ensures
        r == (if b {
            1i32
        } else {
            0i32
        }),
        (r != 0) == b,
{
    if b {
        1
    } else {
        0
    }
}

} // verus!
