use vstd::prelude::*;

use crate::text::{
    decimal, decimal_text, last_piece, signed_decimal, signed_decimal_text, split_on, strip,
    strip_back, trim_back, trim_text,
};

verus! {

/// Seconds in a day.
pub const SECONDS_PER_DAY: i32 = 86400;

/// Below this many days left a certificate is about to expire.
pub const EXPIRES_SOON_DAYS: i32 = 2;

/// Below this many days left a valid certificate still draws a warning.
pub const WARNING_DAYS: i32 = 14;

/// What became of a domain's TLS certificate.
#[derive(Clone, Debug, PartialEq, Eq)]
pub enum CertificateStatus {
    ValidFor(i32),
    Expired,
    ValidationFailed(String),
}

/// What became of an HTTP request to a domain: the status code of the answer,
/// or a short message on why none came.
#[derive(Clone, Debug, PartialEq, Eq)]
pub enum ReachabilityStatus {
    Reachable(u16),
    Failed(String),
}

/// How serious one finding is.
#[derive(Clone, Copy, Debug, PartialEq, Eq, Structural)]
pub enum Severity {
    Good,
    Warning,
    Error,
}

/// The status for what a certificate probe gave back: the seconds until the
/// certificate's end of validity (negative once it has passed), or an error text.
pub open spec fn certificate_from_outcome(outcome: Result<i32, String>) -> CertificateStatus {
    match outcome {
        Ok(secs) => if secs < 0 {
            CertificateStatus::Expired
        } else {
            CertificateStatus::ValidFor((secs / SECONDS_PER_DAY) as i32)
        },
        Err(message) => CertificateStatus::ValidationFailed(message),
    }
}

/// A certificate status that a probe can give: a count of days left is never
/// negative, and no more than the seconds an `i32` holds make.
pub open spec fn certificate_well_formed(status: CertificateStatus) -> bool {
    match status {
        CertificateStatus::ValidFor(days) => 0 <= days <= i32::MAX / SECONDS_PER_DAY,
        _ => true,
    }
}

/// An error text cut down to its last `:`-separated piece, without surrounding
/// whitespace and without trailing dots.
pub open spec fn short_error(text: Seq<char>) -> Seq<char> {
    strip_back(strip(split_on(text, ':').last(), false), true)
}

pub open spec fn certificate_severity(status: CertificateStatus) -> Severity {
    match status {
        CertificateStatus::ValidFor(days) => if days < WARNING_DAYS {
            Severity::Warning
        } else {
            Severity::Good
        },
        CertificateStatus::Expired => Severity::Error,
        CertificateStatus::ValidationFailed(_) => Severity::Error,
    }
}

pub open spec fn reachability_severity(status: ReachabilityStatus) -> Severity {
    match status {
        ReachabilityStatus::Reachable(_) => Severity::Good,
        ReachabilityStatus::Failed(_) => Severity::Error,
    }
}

/// The line that a report shows for a certificate status.
pub open spec fn certificate_label(status: CertificateStatus) -> Seq<char> {
    match status {
        CertificateStatus::ValidFor(days) => if days < EXPIRES_SOON_DAYS {
            "⚠️ Certificate about to expire ("@ + signed_decimal(days as int) + " days left)"@
        } else if days < WARNING_DAYS {
            "⚠️ Certificate valid for "@ + signed_decimal(days as int) + " days"@
        } else {
            "✅ Certificate valid for "@ + signed_decimal(days as int) + " days"@
        },
        CertificateStatus::Expired => "⌛️ Certificate expired"@,
        CertificateStatus::ValidationFailed(message) => "🛑 Certificate error: "@ + message@,
    }
}

/// The line that a report shows for a reachability status.
pub open spec fn reachability_label(status: ReachabilityStatus) -> Seq<char> {
    match status {
        ReachabilityStatus::Reachable(code) => "✅ "@ + decimal(code as nat) + " OK"@,
        ReachabilityStatus::Failed(message) => "🛑 Error: "@ + message@,
    }
}

impl CertificateStatus {
    /// Decides the status from what the certificate probe gave back.
    pub fn from_outcome(outcome: Result<i32, String>) -> (r: CertificateStatus)
        ensures
            r == certificate_from_outcome(outcome),
            certificate_well_formed(r),
    {
        match outcome {
            Ok(secs) => {
                if secs < 0 {
                    CertificateStatus::Expired
                } else {
                    proof {
                        vstd::arithmetic::div_mod::lemma_div_is_ordered(
                            secs as int,
                            i32::MAX as int,
                            SECONDS_PER_DAY as int,
                        );
                    }
                    CertificateStatus::ValidFor(secs / SECONDS_PER_DAY)
                }
            },
            Err(message) => CertificateStatus::ValidationFailed(message),
        }
    }

    /// Classifies the status and writes its report line.
    pub fn classify(&self) -> (r: (Severity, String))
        ensures
            r.0 == certificate_severity(*self),
            r.1@ == certificate_label(*self),
            self matches CertificateStatus::ValidFor(days) ==> {
                &&& days < EXPIRES_SOON_DAYS ==> r.0 == Severity::Warning && r.1@
                    == "⚠️ Certificate about to expire ("@ + signed_decimal(days as int)
                    + " days left)"@
                &&& EXPIRES_SOON_DAYS <= *days < WARNING_DAYS ==> r.0 == Severity::Warning
                &&& days >= WARNING_DAYS ==> r.0 == Severity::Good
            },
            self is ValidFor ==> r.0 != Severity::Error,
            !(self is ValidFor) ==> r.0 == Severity::Error,
    {
        match self {
            CertificateStatus::ValidFor(days) => {
                let label = if *days < EXPIRES_SOON_DAYS {
                    let mut s = String::from_str("⚠️ Certificate about to expire (");
                    s.append(signed_decimal_text(*days).as_str());
                    s.append(" days left)");
                    s
                } else {
                    let mut s = if *days < WARNING_DAYS {
                        String::from_str("⚠️ Certificate valid for ")
                    } else {
                        String::from_str("✅ Certificate valid for ")
                    };
                    s.append(signed_decimal_text(*days).as_str());
                    s.append(" days");
                    s
                };
                let severity = if *days < WARNING_DAYS {
                    Severity::Warning
                } else {
                    Severity::Good
                };
                (severity, label)
            },
            CertificateStatus::Expired => {
                (Severity::Error, String::from_str("⌛️ Certificate expired"))
            },
            CertificateStatus::ValidationFailed(message) => {
                let mut s = String::from_str("🛑 Certificate error: ");
                s.append(message.as_str());
                (Severity::Error, s)
            },
        }
    }
}

/// Cuts an error text down to its last `:`-separated piece, trimmed of
/// whitespace and of trailing dots.
pub fn short_error_message(text: &str) -> (r: String)
    ensures
        r@ == short_error(text@),
{
    let piece = last_piece(text, ':');
    let trimmed = trim_text(piece.as_str(), false);
    trim_back(trimmed.as_str(), true)
}

impl ReachabilityStatus {
    /// Decides the status from what the HTTP request gave back: any status code
    /// counts as reachable; an error keeps the short form of its text.
    pub fn from_outcome(outcome: Result<u16, String>) -> (r: ReachabilityStatus)
        ensures
            outcome is Ok ==> r == ReachabilityStatus::Reachable(outcome->Ok_0),
            outcome is Err ==> (r matches ReachabilityStatus::Failed(m) && m@ == short_error(
                outcome->Err_0@,
            )),
    {
        match outcome {
            Ok(code) => ReachabilityStatus::Reachable(code),
            Err(text) => {
                ReachabilityStatus::Failed(short_error_message(text.as_str()))
            },
        }
    }

    /// Classifies the status and writes its report line.
    pub fn classify(&self) -> (r: (Severity, String))
        ensures
            r.0 == reachability_severity(*self),
            r.1@ == reachability_label(*self),
            self is Reachable ==> r.0 == Severity::Good,
            self is Failed ==> r.0 == Severity::Error,
    {
        match self {
            ReachabilityStatus::Reachable(code) => {
                let mut s = String::from_str("✅ ");
                s.append(decimal_text(*code as u128).as_str());
                s.append(" OK");
                (Severity::Good, s)
            },
            ReachabilityStatus::Failed(message) => {
                let mut s = String::from_str("🛑 Error: ");
                s.append(message.as_str());
                (Severity::Error, s)
            },
        }
    }
}

} // verus!
