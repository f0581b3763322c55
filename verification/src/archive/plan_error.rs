//! Why a plan cannot be made or committed.

use crate::text::{decimal, decimal_text, signed_decimal, signed_decimal_text, texts};
use vstd::prelude::*;
use vstd::string::*;

verus! {

/// Why a plan cannot be made or committed.
#[derive(Debug)]
pub enum PlanError {
    /// The frame set is not in the archive section.
    NotInArchiveSection,
    /// The frame set is zipped already.
    AlreadyZipped,
    /// The calibration set is still in use.
    NotSuperseded(i64),
    /// The calibration set holds frames that are not archived by themselves.
    UnsupportedType(i64, String),
    /// The calibration set has no frames.
    NoMembers(i64),
    /// Some files of the calibration set are archived already.
    MembersArchived(i64, Vec<String>),
    /// A source file is not on disk.
    SourceMissing(String),
    /// A source file could not be hashed, and why.
    HashFailed(String, String),
    /// Two files have one place in the zip: the place and the two sources.
    SamePlace(String, String, String),
    /// There is not enough room: the bytes needed and those available.
    NoSpace(u64, u64),
    /// A plan must have a frame set or a calibration set, and not both.
    SubjectUnclear(i64, Option<i64>),
}

/// What a [`PlanError`] says.
pub ghost enum PlanFailure {
    NotInArchiveSection,
    AlreadyZipped,
    NotSuperseded(i64),
    UnsupportedType(i64, Seq<char>),
    NoMembers(i64),
    MembersArchived(i64, Seq<Seq<char>>),
    SourceMissing(Seq<char>),
    HashFailed(Seq<char>, Seq<char>),
    SamePlace(Seq<char>, Seq<char>, Seq<char>),
    NoSpace(u64, u64),
    SubjectUnclear(i64, Option<i64>),
}

impl View for PlanError {
    type V = PlanFailure;

    open spec fn view(&self) -> PlanFailure {
        match self {
            PlanError::NotInArchiveSection => PlanFailure::NotInArchiveSection,
            PlanError::AlreadyZipped => PlanFailure::AlreadyZipped,
            PlanError::NotSuperseded(id) => PlanFailure::NotSuperseded(*id),
            PlanError::UnsupportedType(id, t) => PlanFailure::UnsupportedType(*id, t@),
            PlanError::NoMembers(id) => PlanFailure::NoMembers(*id),
            PlanError::MembersArchived(id, ps) => PlanFailure::MembersArchived(*id, texts(ps@)),
            PlanError::SourceMissing(p) => PlanFailure::SourceMissing(p@),
            PlanError::HashFailed(p, c) => PlanFailure::HashFailed(p@, c@),
            PlanError::SamePlace(z, a, b) => PlanFailure::SamePlace(z@, a@, b@),
            PlanError::NoSpace(n, a) => PlanFailure::NoSpace(*n, *a),
            PlanError::SubjectUnclear(f, c) => PlanFailure::SubjectUnclear(*f, *c),
        }
    }
}

/// The first `n` texts with commas between them.
pub open spec fn comma_list(ps: Seq<Seq<char>>, n: int) -> Seq<char>
    decreases n,
{
    if n <= 0 {
        Seq::empty()
    } else if n == 1 {
        ps[0]
    } else {
        comma_list(ps, n - 1) + ", "@ + ps[n - 1]
    }
}

/// What an error reads.
pub open spec fn failure_text(f: PlanFailure) -> Seq<char> {
    match f {
        PlanFailure::NotInArchiveSection => "frame set must be moved to the Archive section before it can be zipped"@,
        PlanFailure::AlreadyZipped => "frame set is already zipped"@,
        PlanFailure::NotSuperseded(id) => "calibration set "@ + signed_decimal(id as int)
            + " is not superseded by a master — only superseded sets can have their originals archived"@,
        PlanFailure::UnsupportedType(id, t) => "calibration set "@ + signed_decimal(id as int)
            + " has unsupported imagetyp for archiving: "@ + t,
        PlanFailure::NoMembers(id) => "calibration set "@ + signed_decimal(id as int)
            + " has no member frames on record"@,
        PlanFailure::MembersArchived(id, ps) => "calibration set "@ + signed_decimal(id as int)
            + " already has archived member file(s): "@ + comma_list(ps, ps.len() as int),
        PlanFailure::SourceMissing(p) => "source file no longer exists: "@ + p,
        PlanFailure::HashFailed(p, _) => "failed to hash "@ + p,
        PlanFailure::SamePlace(z, a, b) => "two files map to the same in-zip path '"@ + z + "' ('"@
            + a + "' and '"@ + b
            + "') — the archive staging area would silently collapse them; check for duplicate filenames under unregistered or differently-cased roots"@,
        PlanFailure::NoSpace(n, a) => "insufficient disk space at archive root: need "@ + decimal(
            n as nat,
        ) + " bytes (incl. 5% margin), available "@ + decimal(a as nat),
        PlanFailure::SubjectUnclear(f, c) => "archive plan must have exactly one subject: frames_set_id="@
            + signed_decimal(f as int) + ", calibration_set_id="@ + match c {
            Some(id) => "Some("@ + signed_decimal(id as int) + ")"@,
            None => "None"@,
        },
    }
}

/// The texts with commas between them.
fn comma_text(ps: &Vec<String>) -> (r: String)
    ensures
        r@ == comma_list(texts(ps@), ps@.len() as int),
{
    let mut r = String::new();
    let mut i: usize = 0;
    assert(r@ =~= comma_list(texts(ps@), 0));
    while i < ps.len()
        invariant
            i <= ps@.len(),
            r@ == comma_list(texts(ps@), i as int),
        decreases ps@.len() - i,
    {
        if i > 0 {
            r.append(", ");
        }
        let ghost before = r@;
        r.append(ps[i].as_str());
        assert(i == 0 ==> before + ps@[0]@ =~= ps@[0]@);
        i = i + 1;
    }
    r
}

impl PlanError {
    /// The error in words.
    pub fn to_string(&self) -> (r: String)
        ensures
            r@ == failure_text(self@),
    {
        match self {
            PlanError::NotInArchiveSection => {
                "frame set must be moved to the Archive section before it can be zipped".to_owned()
            },
            PlanError::AlreadyZipped => "frame set is already zipped".to_owned(),
            PlanError::NotSuperseded(id) => {
                let mut r = "calibration set ".to_owned();
                r.append(signed_decimal_text(*id).as_str());
                r.append(
                    " is not superseded by a master — only superseded sets can have their originals archived",
                );
                r
            },
            PlanError::UnsupportedType(id, t) => {
                let mut r = "calibration set ".to_owned();
                r.append(signed_decimal_text(*id).as_str());
                r.append(" has unsupported imagetyp for archiving: ");
                r.append(t.as_str());
                r
            },
            PlanError::NoMembers(id) => {
                let mut r = "calibration set ".to_owned();
                r.append(signed_decimal_text(*id).as_str());
                r.append(" has no member frames on record");
                r
            },
            PlanError::MembersArchived(id, ps) => {
                let mut r = "calibration set ".to_owned();
                r.append(signed_decimal_text(*id).as_str());
                r.append(" already has archived member file(s): ");
                r.append(comma_text(ps).as_str());
                r
            },
            PlanError::SourceMissing(p) => {
                let mut r = "source file no longer exists: ".to_owned();
                r.append(p.as_str());
                r
            },
            PlanError::HashFailed(p, _) => {
                let mut r = "failed to hash ".to_owned();
                r.append(p.as_str());
                r
            },
            PlanError::SamePlace(z, a, b) => {
                let mut r = "two files map to the same in-zip path '".to_owned();
                r.append(z.as_str());
                r.append("' ('");
                r.append(a.as_str());
                r.append("' and '");
                r.append(b.as_str());
                r.append(
                    "') — the archive staging area would silently collapse them; check for duplicate filenames under unregistered or differently-cased roots",
                );
                r
            },
            PlanError::NoSpace(n, a) => {
                let mut r = "insufficient disk space at archive root: need ".to_owned();
                r.append(decimal_text(*n).as_str());
                r.append(" bytes (incl. 5% margin), available ");
                r.append(decimal_text(*a).as_str());
                r
            },
            PlanError::SubjectUnclear(f, c) => {
                let mut r =
                    "archive plan must have exactly one subject: frames_set_id=".to_owned();
                r.append(signed_decimal_text(*f).as_str());
                r.append(", calibration_set_id=");
                let ghost before = r@;
                match c {
                    Some(id) => {
                        r.append("Some(");
                        r.append(signed_decimal_text(*id).as_str());
                        r.append(")");
                        assert(r@ =~= before + ("Some("@ + signed_decimal(*id as int) + ")"@));
                    },
                    None => {
                        r.append("None");
                    },
                }
                r
            },
        }
    }
}

} // verus!
