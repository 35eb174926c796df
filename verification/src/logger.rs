//! The journal of one wiping session: the disks it covers, each disk's
//! outcome in the order they come, and the human-readable text it is saved as.
use vstd::prelude::*;

use crate::text::{copy_strings, decimal, push_decimal, push_str, string_views};

verus! {

/// The outcome of wiping one disk.
#[derive(Debug)]
pub struct DiskResult {
    pub disk_name: String,
    pub success: bool,
    pub message: String,
}

/// The journal of one session.
#[derive(Debug)]
pub struct LogEntry {
    pub timestamp: String,
    pub operation: String,
    pub disks: Vec<String>,
    pub results: Vec<DiskResult>,
}

pub ghost struct DiskResultView {
    pub disk_name: Seq<char>,
    pub success: bool,
    pub message: Seq<char>,
}

pub ghost struct LogEntryView {
    pub timestamp: Seq<char>,
    pub operation: Seq<char>,
    pub disks: Seq<Seq<char>>,
    pub results: Seq<DiskResultView>,
}

impl View for DiskResult {
    type V = DiskResultView;

    open spec fn view(&self) -> DiskResultView {
        DiskResultView { disk_name: self.disk_name@, success: self.success, message: self.message@ }
    }
}

pub open spec fn result_views(v: Seq<DiskResult>) -> Seq<DiskResultView> {
    v.map_values(|r: DiskResult| r@)
}

impl View for LogEntry {
    type V = LogEntryView;

    open spec fn view(&self) -> LogEntryView {
        LogEntryView {
            timestamp: self.timestamp@,
            operation: self.operation@,
            disks: string_views(self.disks@),
            results: result_views(self.results@),
        }
    }
}

pub open spec fn log_view(log: Option<LogEntry>) -> Option<LogEntryView> {
    match log {
        Some(e) => Some(e@),
        None => None,
    }
}

// ---------------------------------------------------------------------------
// The session's transitions
// ---------------------------------------------------------------------------

/// The journal that a session started at `timestamp` on `disks` opens with.
pub open spec fn opened(timestamp: Seq<char>, disks: Seq<Seq<char>>) -> LogEntryView {
    LogEntryView {
        timestamp,
        operation: "Secure disk wiping"@,
        disks,
        results: seq![],
    }
}

/// The journal after one more disk's outcome: appended to an open journal,
/// dropped when none is open.
pub open spec fn recorded(log: Option<LogEntryView>, r: DiskResultView) -> Option<LogEntryView> {
    match log {
        Some(e) => Some(LogEntryView { results: e.results.push(r), ..e }),
        None => None,
    }
}

/// The journal after the outcomes `rs`, one after the other.
pub open spec fn recorded_all(log: Option<LogEntryView>, rs: Seq<DiskResultView>) -> Option<
    LogEntryView,
>
    decreases rs.len(),
{
    if rs.len() == 0 {
        log
    } else {
        recorded(recorded_all(log, rs.drop_last()), rs.last())
    }
}

/// Opens the journal of a session started at `timestamp` on `disks`,
/// replacing any journal still open.
pub fn log_operation_start(log: &mut Option<LogEntry>, timestamp: String, disks: &[String])
    ensures
        log_view(*final(log)) == Some(opened(timestamp@, string_views(disks@))),
{
    let entry = LogEntry {
        timestamp,
        operation: String::from_str("Secure disk wiping"),
        disks: copy_strings(disks),
        results: Vec::new(),
    };
    assert(result_views(entry.results@) =~= seq![]);
    *log = Some(entry);
}

/// Records the outcome of one disk in the open journal; does nothing when no
/// journal is open.
pub fn log_disk_result(log: &mut Option<LogEntry>, disk_name: &str, success: bool, message: &str)
    ensures
        log_view(*final(log)) == recorded(
            log_view(*old(log)),
            DiskResultView { disk_name: disk_name@, success, message: message@ },
        ),
{
    match log {
        Some(entry) => {
            let r = DiskResult {
                disk_name: String::from_str(disk_name),
                success,
                message: String::from_str(message),
            };
            let ghost before = entry.results@;
            entry.results.push(r);
            assert(result_views(entry.results@) =~= result_views(before).push(r@));
        },
        None => {},
    }
}

/// Closes the journal: hands back the one that was open, if any, and leaves
/// none open.
pub fn log_operation_end(log: &mut Option<LogEntry>) -> (res: Option<LogEntry>)
    ensures
        log_view(res) == log_view(*old(log)),
        final(log).is_none(),
{
    let mut taken: Option<LogEntry> = None;
    std::mem::swap(&mut taken, log);
    taken
}

/// The name of the JSON file of a journal saved at `stamp`.
pub fn log_file_name(stamp: &str) -> (res: String)
    ensures
        res@ == "shred_log_"@ + stamp@ + ".json"@,
{
    let mut s = String::from_str("shred_log_");
    push_str(&mut s, stamp);
    push_str(&mut s, ".json");
    s
}

// ---------------------------------------------------------------------------
// The readable journal
// ---------------------------------------------------------------------------

pub open spec fn heavy_rule() -> Seq<char> {
    "═══════════════════════════════════════════════════════════════\n"@
}

pub open spec fn light_rule() -> Seq<char> {
    "───────────────────────────────────────────────────────────────\n"@
}

pub open spec fn disk_lines(disks: Seq<Seq<char>>) -> Seq<char>
    decreases disks.len(),
{
    if disks.len() == 0 {
        seq![]
    } else {
        disk_lines(disks.drop_last()) + "  • "@ + disks.last() + "\n"@
    }
}

pub open spec fn status_text(success: bool) -> Seq<char> {
    if success {
        "✅ SUCCÈS"@
    } else {
        "❌ ÉCHEC"@
    }
}

pub open spec fn result_block(r: DiskResultView) -> Seq<char> {
    "Disque : "@ + r.disk_name + "\n"@ + "Statut : "@ + status_text(r.success) + "\n"@
        + "Message: "@ + r.message + "\n\n"@
}

pub open spec fn result_blocks(rs: Seq<DiskResultView>) -> Seq<char>
    decreases rs.len(),
{
    if rs.len() == 0 {
        seq![]
    } else {
        result_blocks(rs.drop_last()) + result_block(rs.last())
    }
}

/// How many of the outcomes are successes.
pub open spec fn success_count(rs: Seq<DiskResultView>) -> nat
    decreases rs.len(),
{
    if rs.len() == 0 {
        0
    } else {
        success_count(rs.drop_last()) + if rs.last().success {
            1nat
        } else {
            0nat
        }
    }
}

/// The text of the readable journal.
pub open spec fn readable_log(e: LogEntryView) -> Seq<char> {
    heavy_rule() + "          JOURNAL DE SUPPRESSION SÉCURISÉE DE DISQUES\n"@ + heavy_rule() + "\n"@
        + "Date et heure : "@ + e.timestamp + "\n"@ + "Opération     : "@ + e.operation + "\n\n"@
        + "Disques traités :\n"@ + disk_lines(e.disks) + "\n"@ + light_rule()
        + "                          RÉSULTATS\n"@ + light_rule() + "\n"@ + result_blocks(e.results)
        + light_rule() + "BILAN : "@ + decimal(success_count(e.results)) + "/"@ + decimal(
        e.results.len(),
    ) + " opérations réussies\n"@ + light_rule()
}

proof fn lemma_success_count_bound(rs: Seq<DiskResultView>)
    ensures
        success_count(rs) <= rs.len(),
    decreases rs.len(),
{
    if rs.len() > 0 {
        lemma_success_count_bound(rs.drop_last());
    }
}

/// The readable text of a journal: header, date, operation, the disks, one
/// block per outcome and the count of successes.
pub fn human_readable_log(log: &LogEntry) -> (res: String)
    ensures
        res@ == readable_log(log@),
{
    let ghost e = log@;
    let mut content = String::new();
    push_str(&mut content, "═══════════════════════════════════════════════════════════════\n");
    push_str(&mut content, "          JOURNAL DE SUPPRESSION SÉCURISÉE DE DISQUES\n");
    push_str(&mut content, "═══════════════════════════════════════════════════════════════\n");
    push_str(&mut content, "\n");
    push_str(&mut content, "Date et heure : ");
    push_str(&mut content, log.timestamp.as_str());
    push_str(&mut content, "\n");
    push_str(&mut content, "Opération     : ");
    push_str(&mut content, log.operation.as_str());
    push_str(&mut content, "\n\n");
    push_str(&mut content, "Disques traités :\n");
    let ghost head = content@;
    let mut i: usize = 0;
    while i < log.disks.len()
        invariant
            i <= log.disks@.len(),
            e == log@,
            content@ == head + disk_lines(e.disks.take(i as int)),
        decreases log.disks@.len() - i,
    {
        assert(e.disks.take(i + 1).drop_last() == e.disks.take(i as int));
        assert(e.disks[i as int] == log.disks@[i as int]@);
        let mut line = String::new();
        push_str(&mut line, "  • ");
        push_str(&mut line, log.disks[i].as_str());
        push_str(&mut line, "\n");
        push_str(&mut content, line.as_str());
        assert(content@ =~= head + (disk_lines(e.disks.take(i as int)) + ("  • "@ + e.disks[i as int] + "\n"@)));
        i = i + 1;
        assert(content@ == head + disk_lines(e.disks.take(i as int)));
    }
    assert(e.disks.take(e.disks.len() as int) == e.disks);
    push_str(&mut content, "\n");
    push_str(&mut content, "───────────────────────────────────────────────────────────────\n");
    push_str(&mut content, "                          RÉSULTATS\n");
    push_str(&mut content, "───────────────────────────────────────────────────────────────\n");
    push_str(&mut content, "\n");
    let ghost mid = content@;
    let mut successes: usize = 0;
    let mut j: usize = 0;
    while j < log.results.len()
        invariant
            j <= log.results@.len(),
            e == log@,
            successes == success_count(e.results.take(j as int)),
            successes <= j,
            content@ == mid + result_blocks(e.results.take(j as int)),
        decreases log.results@.len() - j,
    {
        let r = &log.results[j];
        assert(e.results.take(j + 1).drop_last() == e.results.take(j as int));
        assert(e.results[j as int] == r@);
        let mut block = String::new();
        push_str(&mut block, "Disque : ");
        push_str(&mut block, r.disk_name.as_str());
        push_str(&mut block, "\n");
        push_str(&mut block, "Statut : ");
        if r.success {
            push_str(&mut block, "✅ SUCCÈS");
            successes = successes + 1;
        } else {
            push_str(&mut block, "❌ ÉCHEC");
        }
        push_str(&mut block, "\n");
        push_str(&mut block, "Message: ");
        push_str(&mut block, r.message.as_str());
        push_str(&mut block, "\n\n");
        assert(block@ == result_block(r@));
        let ghost before = content@;
        push_str(&mut content, block.as_str());
        assert(content@ =~= mid + (result_blocks(e.results.take(j as int)) + result_block(r@)));
        j = j + 1;
        assert(content@ == mid + result_blocks(e.results.take(j as int)));
    }
    assert(e.results.take(e.results.len() as int) == e.results);
    push_str(&mut content, "───────────────────────────────────────────────────────────────\n");
    push_str(&mut content, "BILAN : ");
    push_decimal(&mut content, successes as u64);
    push_str(&mut content, "/");
    push_decimal(&mut content, log.results.len() as u64);
    push_str(&mut content, " opérations réussies\n");
    push_str(&mut content, "───────────────────────────────────────────────────────────────\n");
    content
}

// ---------------------------------------------------------------------------
// Laws
// ---------------------------------------------------------------------------

/// A session's journal, once closed, holds the start time and disks given
/// when it opened and every outcome recorded while it was open, in order.
pub proof fn lemma_session_journal(
    timestamp: Seq<char>,
    disks: Seq<Seq<char>>,
    rs: Seq<DiskResultView>,
)
    ensures
        recorded_all(Some(opened(timestamp, disks)), rs) == Some(
            LogEntryView { results: rs, ..opened(timestamp, disks) },
        ),
    decreases rs.len(),
{
    if rs.len() > 0 {
        lemma_session_journal(timestamp, disks, rs.drop_last());
        assert(rs.drop_last().push(rs.last()) == rs);
    } else {
        assert(rs =~= seq![]);
    }
}

/// Outcomes recorded while no journal is open are lost.
pub proof fn lemma_no_journal_no_record(rs: Seq<DiskResultView>)
    ensures
        recorded_all(None, rs) is None,
    decreases rs.len(),
{
    if rs.len() > 0 {
        lemma_no_journal_no_record(rs.drop_last());
    }
}

/// The count of successes in the readable journal never exceeds the number of
/// outcomes.
pub proof fn lemma_successes_at_most_outcomes(rs: Seq<DiskResultView>)
    ensures
        success_count(rs) <= rs.len(),
{
    lemma_success_count_bound(rs);
}

/// The outcomes that succeeded, in order.
pub open spec fn successes(rs: Seq<DiskResultView>) -> Seq<DiskResultView> {
    rs.filter(|r: DiskResultView| r.success)
}

proof fn lemma_count_is_successes(rs: Seq<DiskResultView>)
    ensures
        success_count(rs) == successes(rs).len(),
    decreases rs.len(),
{
    reveal(Seq::filter);
    if rs.len() > 0 {
        lemma_count_is_successes(rs.drop_last());
    }
}

/// The readable journal ends with the tally: the number of outcomes that
/// succeeded, over the number of outcomes, then a light rule.
pub proof fn lemma_tally_counts_successes(e: LogEntryView)
    ensures
        ({
            let text = readable_log(e);
            let tally = "BILAN : "@ + decimal(successes(e.results).len()) + "/"@ + decimal(
                e.results.len(),
            ) + " opérations réussies\n"@ + light_rule();
            &&& text.len() >= tally.len()
            &&& text.subrange(text.len() - tally.len(), text.len() as int) == tally
        }),
        successes(e.results).len() <= e.results.len(),
        (forall|i: int| 0 <= i < e.results.len() ==> #[trigger] e.results[i].success) ==> successes(
            e.results,
        ).len() == e.results.len(),
        (forall|i: int| 0 <= i < e.results.len() ==> !#[trigger] e.results[i].success) ==> successes(
            e.results,
        ).len() == 0,
{
    let rs = e.results;
    lemma_count_is_successes(rs);
    rs.lemma_filter_len(|r: DiskResultView| r.success);
    let tally = "BILAN : "@ + decimal(successes(rs).len()) + "/"@ + decimal(rs.len())
        + " opérations réussies\n"@ + light_rule();
    let head = heavy_rule() + "          JOURNAL DE SUPPRESSION SÉCURISÉE DE DISQUES\n"@ + heavy_rule()
        + "\n"@ + "Date et heure : "@ + e.timestamp + "\n"@ + "Opération     : "@ + e.operation
        + "\n\n"@ + "Disques traités :\n"@ + disk_lines(e.disks) + "\n"@ + light_rule()
        + "                          RÉSULTATS\n"@ + light_rule() + "\n"@ + result_blocks(rs)
        + light_rule();
    assert(readable_log(e) =~= head + tally);
    assert((head + tally).subrange(head.len() as int, (head + tally).len() as int) =~= tally);
    if forall|i: int| 0 <= i < rs.len() ==> #[trigger] rs[i].success {
        lemma_all_succeed(rs);
    }
    if forall|i: int| 0 <= i < rs.len() ==> !#[trigger] rs[i].success {
        lemma_none_succeed(rs);
    }
}

proof fn lemma_all_succeed(rs: Seq<DiskResultView>)
    requires
        forall|i: int| 0 <= i < rs.len() ==> #[trigger] rs[i].success,
    ensures
        successes(rs).len() == rs.len(),
    decreases rs.len(),
{
    reveal(Seq::filter);
    if rs.len() > 0 {
        let q = rs.drop_last();
        assert forall|i: int| 0 <= i < q.len() implies #[trigger] q[i].success by {
            assert(q[i] == rs[i]);
        }
        lemma_all_succeed(q);
        assert(rs.last().success);
    }
}

proof fn lemma_none_succeed(rs: Seq<DiskResultView>)
    requires
        forall|i: int| 0 <= i < rs.len() ==> !#[trigger] rs[i].success,
    ensures
        successes(rs).len() == 0,
    decreases rs.len(),
{
    reveal(Seq::filter);
    if rs.len() > 0 {
        let q = rs.drop_last();
        assert forall|i: int| 0 <= i < q.len() implies !#[trigger] q[i].success by {
            assert(q[i] == rs[i]);
        }
        lemma_none_succeed(q);
        assert(!rs.last().success);
    }
}

} // verus!
