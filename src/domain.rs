use vstd::prelude::*;

use crate::status::{
    certificate_from_outcome, certificate_label, certificate_severity, certificate_well_formed,
    reachability_label, reachability_severity, CertificateStatus, ReachabilityStatus, Severity,
};
use crate::text::{
    decimal, decimal_text, drop_escapes, escape_free, has_char, lemma_without_escapes_keeps_free,
    without_escapes,
};

verus! {

/// What the probes found for one domain.
#[derive(Clone, Debug, PartialEq, Eq)]
pub struct DomainReport {
    pub domain: String,
    pub certificate: CertificateStatus,
    pub reachability: ReachabilityStatus,
}

/// Checks a list of domains and writes the report on them.
pub struct Checker {
    pub domains: Vec<String>,
    /// Whether the report is the scheduled daily one.
    pub cron: bool,
}

/// The text that prettytable writes for a table with these titles and rows,
/// titles centred, without column separators.
pub uninterp spec fn table_text(titles: Seq<Seq<char>>, rows: Seq<Seq<Seq<char>>>) -> Seq<char>;

/// Relies on prettytable's `Table`: a table with the given titles (centred) and
/// rows in `FORMAT_NO_COLSEP`, written out through its `Display`; the text
/// depends on the cells alone. A cell must not hold an escape character:
/// prettytable's width computation (`display_width`) asserts on some texts
/// that follow one.
#[verifier::external_body]
fn render_table(titles: &Vec<String>, rows: &Vec<Vec<String>>) -> (r: String)
    requires
        forall|i: int| 0 <= i < titles.len() ==> escape_free(#[trigger] titles[i]@),
        forall|i: int, j: int|
            0 <= i < rows.len() && 0 <= j < rows[i].len() ==> escape_free(#[trigger] rows[i][j]@),
    ensures
        r@ == table_text(titles.deep_view(), rows.deep_view()),
{
    let mut table = prettytable::Table::new();
    table.set_format(*prettytable::format::consts::FORMAT_NO_COLSEP);
    let title_cells = titles.iter().map(|t| prettytable::Cell::new(t).style_spec("c")).collect();
    table.set_titles(prettytable::Row::new(title_cells));
    for row in rows {
        table.add_row(prettytable::Row::new(row.iter().map(|c| prettytable::Cell::new(c)).collect()));
    }
    table.to_string()
}

/// Whether `domain` holds a NUL character, which no host name does.
pub open spec fn has_nul(domain: Seq<char>) -> bool {
    exists|j: int| 0 <= j < domain.len() && domain[j] == '\0'
}

/// `status` is what a certificate probe of `domain` that gave back `outcome`
/// comes to: a name holding a NUL character is no host name and fails with
/// its own message, whatever the outcome; any other name gets the status that
/// the outcome decides.
pub open spec fn certificate_found(
    domain: Seq<char>,
    outcome: Result<i32, String>,
    status: CertificateStatus,
) -> bool {
    &&& has_nul(domain) ==> (status matches CertificateStatus::ValidationFailed(m) && m@
        == NUL_IN_NAME@)
    &&& !has_nul(domain) ==> status == certificate_from_outcome(outcome)
}

/// The certificate status of `domain_name`, given what its probe gave back:
/// the seconds until the end of validity, or the probe's error text, which
/// becomes `ValidationFailed`. A name holding a NUL character is no host name;
/// its outcome is not read.
pub fn verify_domain(domain_name: &str, outcome: Result<i32, String>) -> (r: CertificateStatus)
    ensures
        certificate_found(domain_name@, outcome, r),
        certificate_well_formed(r),
{
    if has_char(domain_name, '\0') {
        CertificateStatus::ValidationFailed(String::from_str(NUL_IN_NAME))
    } else {
        CertificateStatus::from_outcome(outcome)
    }
}

/// The message for a domain name that holds a NUL character.
pub const NUL_IN_NAME: &'static str = "the domain name holds a NUL character";

/// 1 where `found` is the severity `wanted`, else 0.
pub open spec fn tally(found: Severity, wanted: Severity) -> nat {
    if found == wanted {
        1
    } else {
        0
    }
}

/// How many findings of severity `wanted` one domain contributes.
pub open spec fn entry_count(entry: DomainReport, wanted: Severity) -> nat {
    tally(certificate_severity(entry.certificate), wanted) + tally(
        reachability_severity(entry.reachability),
        wanted,
    )
}

/// How many findings of severity `wanted` the domains contribute together.
pub open spec fn severity_count(entries: Seq<DomainReport>, wanted: Severity) -> nat
    decreases entries.len(),
{
    if entries.len() == 0 {
        0
    } else {
        severity_count(entries.drop_last(), wanted) + entry_count(entries.last(), wanted)
    }
}

/// The cells of a domain's row: the domain, its certificate line, its
/// reachability line, each without escape characters.
pub open spec fn report_row(entry: DomainReport) -> Seq<Seq<char>> {
    seq![
        without_escapes(entry.domain@),
        without_escapes(certificate_label(entry.certificate)),
        without_escapes(reachability_label(entry.reachability)),
    ]
}

/// One row per domain, in the order given.
pub open spec fn report_rows(entries: Seq<DomainReport>) -> Seq<Seq<Seq<char>>> {
    entries.map_values(|e: DomainReport| report_row(e))
}

pub open spec fn report_titles() -> Seq<Seq<char>> {
    seq!["Domain"@, "SSL Status"@, "HTTP Status"@]
}

/// The summary line: the counts of warnings and errors.
pub open spec fn summary_line(cron: bool, entries: Seq<DomainReport>) -> Seq<char> {
    (if cron {
        "Your daily report: "@
    } else {
        ""@
    }) + "Found "@ + decimal(severity_count(entries, Severity::Warning)) + " warning(s) / "@
        + decimal(severity_count(entries, Severity::Error)) + " error(s)"@
}

/// The whole report: the summary line, then the table of details.
pub open spec fn report_text(cron: bool, entries: Seq<DomainReport>) -> Seq<char> {
    summary_line(cron, entries) + "\n\nResult Details:\n<pre language=\"text\">\n"@ + table_text(
        report_titles(),
        report_rows(entries),
    ) + "\n</pre>"@
}

pub proof fn lemma_severity_count_bound(entries: Seq<DomainReport>, wanted: Severity)
    ensures
        severity_count(entries, wanted) <= 2 * entries.len(),
    decreases entries.len(),
{
    if entries.len() > 0 {
        lemma_severity_count_bound(entries.drop_last(), wanted);
    }
}

/// How many of a domain's two findings are not good: the warnings and errors
/// that the classifier gives it.
pub open spec fn findings(entry: DomainReport) -> nat {
    (if certificate_severity(entry.certificate) != Severity::Good {
        1nat
    } else {
        0nat
    }) + (if reachability_severity(entry.reachability) != Severity::Good {
        1nat
    } else {
        0nat
    })
}

/// The findings of the domains, added up one domain at a time.
pub open spec fn sum_of_findings(entries: Seq<DomainReport>) -> nat
    decreases entries.len(),
{
    if entries.len() == 0 {
        0
    } else {
        findings(entries[0]) + sum_of_findings(entries.drop_first())
    }
}

pub proof fn lemma_counts_split_first(entries: Seq<DomainReport>, wanted: Severity)
    requires
        entries.len() > 0,
    ensures
        severity_count(entries, wanted) == entry_count(entries[0], wanted) + severity_count(
            entries.drop_first(),
            wanted,
        ),
    decreases entries.len(),
{
    if entries.len() > 1 {
        let rest = entries.drop_last();
        lemma_counts_split_first(rest, wanted);
        assert(rest.drop_first() =~= entries.drop_first().drop_last());
        assert(rest[0] == entries[0]);
        assert(entries.drop_first().last() == entries.last());
    } else {
        assert(entries.drop_last() =~= Seq::<DomainReport>::empty());
        assert(entries.drop_first() =~= Seq::<DomainReport>::empty());
    }
}

/// A report has one row for each domain that was checked, in the order of the
/// list and with duplicates kept, and the warnings and errors it counts add up
/// to what the classifier gives each domain.
pub proof fn lemma_one_row_per_domain(domains: Seq<String>, entries: Seq<DomainReport>)
    requires
        entries.len() == domains.len(),
        forall|i: int| 0 <= i < entries.len() ==> #[trigger] entries[i].domain == domains[i],
    ensures
        report_rows(entries).len() == domains.len(),
        forall|i: int|
            0 <= i < domains.len() ==> #[trigger] report_rows(entries)[i][0] == without_escapes(
                domains[i]@,
            ),
        forall|i: int|
            0 <= i < domains.len() && escape_free(domains[i]@) ==> #[trigger] report_rows(
                entries,
            )[i][0] == domains[i]@,
        severity_count(entries, Severity::Warning) + severity_count(entries, Severity::Error)
            == sum_of_findings(entries),
    decreases entries.len(),
{
    assert forall|i: int| 0 <= i < domains.len() implies #[trigger] report_rows(entries)[i][0]
        == without_escapes(domains[i]@) by {
        assert(report_rows(entries)[i] == report_row(entries[i]));
    }
    assert forall|i: int| 0 <= i < domains.len() && escape_free(domains[i]@) implies #[trigger] report_rows(
        entries,
    )[i][0] == domains[i]@ by {
        assert(report_rows(entries)[i] == report_row(entries[i]));
        lemma_without_escapes_keeps_free(domains[i]@);
    }
    if entries.len() > 0 {
        let rest = entries.drop_first();
        let rest_domains = domains.drop_first();
        assert forall|i: int| 0 <= i < rest.len() implies #[trigger] rest[i].domain
            == rest_domains[i] by {
            assert(rest[i] == entries[i + 1]);
        }
        lemma_one_row_per_domain(rest_domains, rest);
        lemma_counts_split_first(entries, Severity::Warning);
        lemma_counts_split_first(entries, Severity::Error);
    }
}

/// Reports on domains whose findings have the same severities count the same
/// warnings and errors, whatever the day counts, codes and messages: checking
/// the same domains twice with nothing changed gives the same counts.
pub proof fn lemma_counts_follow_severities(a: Seq<DomainReport>, b: Seq<DomainReport>)
    requires
        a.len() == b.len(),
        forall|i: int|
            0 <= i < a.len() ==> certificate_severity(#[trigger] a[i].certificate)
                == certificate_severity(b[i].certificate) && reachability_severity(a[i].reachability)
                == reachability_severity(b[i].reachability),
    ensures
        severity_count(a, Severity::Warning) == severity_count(b, Severity::Warning),
        severity_count(a, Severity::Error) == severity_count(b, Severity::Error),
    decreases a.len(),
{
    if a.len() > 0 {
        let (ra, rb) = (a.drop_last(), b.drop_last());
        assert forall|i: int| 0 <= i < ra.len() implies certificate_severity(
            #[trigger] ra[i].certificate,
        ) == certificate_severity(rb[i].certificate) && reachability_severity(ra[i].reachability)
            == reachability_severity(rb[i].reachability) by {
            assert(ra[i] == a[i] && rb[i] == b[i]);
        }
        lemma_counts_follow_severities(ra, rb);
        assert(a.last() == a[a.len() - 1]);
    }
}

impl Checker {
    pub fn new(domains: Vec<String>, cron: bool) -> (r: Self)
        ensures
            r.domains == domains,
            r.cron == cron,
    {
        Self { domains, cron }
    }

    /// The certificate status of `domain_name`, given what its probe gave back.
    pub fn check_certificate(&self, domain_name: &str, outcome: Result<i32, String>) -> (r:
        CertificateStatus)
        ensures
            certificate_found(domain_name@, outcome, r),
            certificate_well_formed(r),
    {
        verify_domain(domain_name, outcome)
    }

    /// One entry per domain, in order, duplicates included: the domain, the
    /// status its certificate probe comes to, and its reachability status. The
    /// probe outcomes and the reachability statuses are given in the order of
    /// the domains.
    pub fn get_domain_statusses(
        &self,
        certificates: Vec<Result<i32, String>>,
        reachability: Vec<ReachabilityStatus>,
    ) -> (r: Vec<DomainReport>)
        requires
            certificates.len() == self.domains.len(),
            reachability.len() == self.domains.len(),
        ensures
            r.len() == self.domains.len(),
            forall|i: int|
                0 <= i < r.len() ==> {
                    &&& #[trigger] r[i].domain == self.domains[i]
                    &&& r[i].reachability == reachability[i]
                    &&& certificate_found(self.domains[i]@, certificates[i], r[i].certificate)
                    &&& certificate_well_formed(r[i].certificate)
                },
    {
        let mut outcomes = certificates;
        let mut rest = reachability;
        let mut r: Vec<DomainReport> = Vec::new();
        let mut i: usize = 0;
        while i < self.domains.len()
            invariant
                i <= self.domains.len(),
                certificates.len() == self.domains.len(),
                reachability.len() == self.domains.len(),
                outcomes@ == certificates@.subrange(i as int, certificates.len() as int),
                rest@ == reachability@.subrange(i as int, reachability.len() as int),
                r.len() == i,
                forall|k: int|
                    0 <= k < i ==> {
                        &&& #[trigger] r[k].domain == self.domains[k]
                        &&& r[k].reachability == reachability[k]
                        &&& certificate_found(self.domains[k]@, certificates[k], r[k].certificate)
                        &&& certificate_well_formed(r[k].certificate)
                    },
            decreases self.domains.len() - i,
        {
            let domain = self.domains[i].clone();
            let outcome = outcomes.remove(0);
            let certificate = self.check_certificate(domain.as_str(), outcome);
            let status = rest.remove(0);
            r.push(DomainReport { domain, certificate, reachability: status });
            assert(outcomes@ =~= certificates@.subrange(i + 1, certificates.len() as int));
            assert(rest@ =~= reachability@.subrange(i + 1, reachability.len() as int));
            i = i + 1;
        }
        r
    }

    /// Writes the report: a summary line with the counts of warnings and errors
    /// (an expired or unreadable certificate and an unreachable domain are
    /// errors; a certificate with fewer than 14 days left is a warning), then a
    /// table with one row per domain, in the order given.
    pub fn parse_statusses_to_string(&self, statusses: &Vec<DomainReport>) -> (r: String)
        ensures
            r@ == report_text(self.cron, statusses@),
    {
        let mut rows: Vec<Vec<String>> = Vec::new();
        let mut warnings: u128 = 0;
        let mut errors: u128 = 0;
        let mut i: usize = 0;
        while i < statusses.len()
            invariant
                i <= statusses.len(),
                warnings == severity_count(statusses@.subrange(0, i as int), Severity::Warning),
                errors == severity_count(statusses@.subrange(0, i as int), Severity::Error),
                rows.deep_view() == report_rows(statusses@.subrange(0, i as int)),
                forall|a: int, b: int|
                    0 <= a < rows.len() && 0 <= b < rows[a].len() ==> escape_free(
                        #[trigger] rows[a][b]@,
                    ),
            decreases statusses.len() - i,
        {
            let entry = &statusses[i];
            let (certificate_found, certificate_line) = entry.certificate.classify();
            let (reachability_found, reachability_line) = entry.reachability.classify();
            proof {
                let before = statusses@.subrange(0, i as int);
                let after = statusses@.subrange(0, i + 1);
                assert(after.drop_last() =~= before);
                assert(after.last() == *entry);
                lemma_severity_count_bound(before, Severity::Warning);
                lemma_severity_count_bound(before, Severity::Error);
            }
            if certificate_found == Severity::Warning {
                warnings = warnings + 1;
            }
            if certificate_found == Severity::Error {
                errors = errors + 1;
            }
            if reachability_found == Severity::Error {
                errors = errors + 1;
            }
            let ghost before_rows = rows.deep_view();
            let domain_cell = drop_escapes(entry.domain.as_str());
            let certificate_cell = drop_escapes(certificate_line.as_str());
            let reachability_cell = drop_escapes(reachability_line.as_str());
            let ghost cells = seq![domain_cell, certificate_cell, reachability_cell];
            let mut row: Vec<String> = Vec::new();
            row.push(domain_cell);
            row.push(certificate_cell);
            row.push(reachability_cell);
            assert(row@ =~= cells);
            assert forall|b: int| 0 <= b < row.len() implies escape_free(#[trigger] row[b]@) by {
                assert(row[b] == cells[b]);
            }
            assert(row.deep_view() =~= report_row(*entry));
            let ghost old_rows = rows;
            let ghost before_len = rows.len();
            let ghost pushed = row;
            rows.push(row);
            assert forall|a: int, b: int| 0 <= a < rows.len() && 0 <= b < rows[a].len() implies escape_free(
                #[trigger] rows[a][b]@,
            ) by {
                if a < before_len {
                    assert(rows[a] == old_rows[a]);
                } else {
                    assert(rows[a] == pushed);
                    assert(escape_free(pushed[b]@));
                }
            }
            proof {
                let after = statusses@.subrange(0, i + 1);
                assert(rows.deep_view() =~= before_rows.push(report_row(*entry)));
                assert(report_rows(after) =~= report_rows(after.drop_last()).push(
                    report_row(*entry),
                ));
            }
            i = i + 1;
        }
        assert(statusses@.subrange(0, statusses.len() as int) =~= statusses@);
        let mut titles: Vec<String> = Vec::new();
        titles.push(String::from_str("Domain"));
        titles.push(String::from_str("SSL Status"));
        titles.push(String::from_str("HTTP Status"));
        assert(titles.deep_view() =~= report_titles());
        proof {
            reveal_strlit("Domain");
            reveal_strlit("SSL Status");
            reveal_strlit("HTTP Status");
        }
        let table = render_table(&titles, &rows);
        let mut text = if self.cron {
            String::from_str("Your daily report: ")
        } else {
            String::from_str("")
        };
        text.append("Found ");
        text.append(decimal_text(warnings).as_str());
        text.append(" warning(s) / ");
        text.append(decimal_text(errors).as_str());
        text.append(" error(s)");
        text.append("\n\nResult Details:\n<pre language=\"text\">\n");
        text.append(table.as_str());
        text.append("\n</pre>");
        text
    }
}

} // verus!
