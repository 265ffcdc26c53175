//! The data model of a branch under review.

use vstd::prelude::*;

verus! {

/// A local branch as the repository reports it, before filtering:
/// its decoded name, the full hexadecimal id of its tip commit, the
/// commit timestamp in seconds since the epoch, and the commit's
/// recorded UTC offset in minutes.
pub struct RawBranch {
    pub name: String,
    pub commit_id: String,
    pub seconds: i64,
    pub offset_minutes: i32,
}

/// Mathematical image of a `RawBranch`.
pub ghost struct RawBranchView {
    pub name: Seq<char>,
    pub commit_id: Seq<char>,
    pub seconds: i64,
    pub offset_minutes: i32,
}

impl View for RawBranch {
    type V = RawBranchView;

    open spec fn view(&self) -> RawBranchView {
        RawBranchView {
            name: self.name@,
            commit_id: self.commit_id@,
            seconds: self.seconds,
            offset_minutes: self.offset_minutes,
        }
    }
}

/// A branch admitted to the review list. `time` is the commit
/// timestamp plus the recorded offset in minutes, read as a naive
/// local instant; `handle` is the index of the branch in the raw
/// listing, the key under which the session asks for its deletion.
pub struct Branch {
    pub name: String,
    pub commit_id: String,
    pub time: i64,
    pub handle: usize,
}

/// Mathematical image of a `Branch`.
pub ghost struct BranchView {
    pub name: Seq<char>,
    pub commit_id: Seq<char>,
    pub time: i64,
    pub handle: usize,
}

impl View for Branch {
    type V = BranchView;

    open spec fn view(&self) -> BranchView {
        BranchView {
            name: self.name@,
            commit_id: self.commit_id@,
            time: self.time,
            handle: self.handle,
        }
    }
}

} // verus!
