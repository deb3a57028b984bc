//! Outcomes of a visit-recording attempt, and their page variants.
//!
//! The recorder never inspects a datastore driver's error type directly:
//! the caller translates the driver's answer into an [`InsertResult`] at the
//! datastore edge, and everything from there on is a total, verified mapping.

use vstd::prelude::*;

verus! {

/// What the datastore reported for one attempted insert of a
/// `(day, identity)` row.  This is the narrow translation boundary between
/// the driver and the protocol.
pub enum InsertResult {
    /// The row was inserted.
    Inserted,
    /// The insert was rejected by the uniqueness constraint on
    /// `(day, identity)`: the pair was already recorded.
    DuplicatePair,
    /// Any other persistence failure, with a human-readable detail.
    Failed(String),
}

/// The tri-state result of a visit-recording attempt.
pub enum Outcome {
    /// The pair was newly recorded: this identity's first visit today.
    FirstVisitToday,
    /// The pair had already been recorded today.
    AlreadyCounted,
    /// The datastore failed for a reason other than the uniqueness
    /// constraint.
    Failure(String),
}

/// The page served for an outcome.
pub enum PageVariant {
    /// The plain success page.
    SuccessPage,
    /// The success page with an "already counted" notice.
    AlreadyCountedNotice,
    /// A generic server-error response.
    ServerError,
}

/// The outcome an insert report denotes: a uniqueness violation is an
/// expected, non-exceptional outcome; everything else that failed is a
/// failure.
pub open spec fn outcome_for(r: InsertResult) -> Outcome {
    match r {
        InsertResult::Inserted => Outcome::FirstVisitToday,
        InsertResult::DuplicatePair => Outcome::AlreadyCounted,
        InsertResult::Failed(detail) => Outcome::Failure(detail),
    }
}

/// Translate the datastore's answer for one attempted insert into the
/// outcome of the visit-recording attempt.
pub fn outcome_of_insert(r: InsertResult) -> (o: Outcome)
    ensures
        o == outcome_for(r),
{
    match r {
        InsertResult::Inserted => Outcome::FirstVisitToday,
        InsertResult::DuplicatePair => Outcome::AlreadyCounted,
        InsertResult::Failed(detail) => Outcome::Failure(detail),
    }
}

/// The page variant an outcome maps to.
pub open spec fn variant_for(o: Outcome) -> PageVariant {
    match o {
        Outcome::FirstVisitToday => PageVariant::SuccessPage,
        Outcome::AlreadyCounted => PageVariant::AlreadyCountedNotice,
        Outcome::Failure(_) => PageVariant::ServerError,
    }
}

/// Map an outcome to the page served for it.  Pure: depends on the outcome
/// value alone.
pub fn render(o: &Outcome) -> (v: PageVariant)
    ensures
        v == variant_for(*o),
{
    match o {
        Outcome::FirstVisitToday => PageVariant::SuccessPage,
        Outcome::AlreadyCounted => PageVariant::AlreadyCountedNotice,
        Outcome::Failure(_) => PageVariant::ServerError,
    }
}

/// The notice shown on a page variant: empty for a plain success page, the
/// "already counted" message for a repeat visit, empty for the error page
/// (which carries no notice of its own).
pub fn page_notice(v: &PageVariant) -> (t: &'static str)
    ensures
        (v matches PageVariant::SuccessPage) ==> t@ == ""@,
        (v matches PageVariant::AlreadyCountedNotice) ==> t@ == "Your ip has already been counted :)"@,
        (v matches PageVariant::ServerError) ==> t@ == ""@,
{
    match v {
        PageVariant::SuccessPage => "",
        PageVariant::AlreadyCountedNotice => "Your ip has already been counted :)",
        PageVariant::ServerError => "",
    }
}

/// The HTTP status served for a page variant: 200 for both counted pages,
/// 500 for the server-error response.
pub fn page_status(v: &PageVariant) -> (s: u16)
    ensures
        s == 200 <==> !(v matches PageVariant::ServerError),
        s == 500 <==> (v matches PageVariant::ServerError),
{
    match v {
        PageVariant::SuccessPage => 200,
        PageVariant::AlreadyCountedNotice => 200,
        PageVariant::ServerError => 500,
    }
}

} // verus!
