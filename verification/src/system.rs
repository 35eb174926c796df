//! Reading the reports of `smartctl -a` and `blkid`: the key SMART
//! attributes, the health verdict drawn from them, and the outcome of the
//! post-wipe signature check.
use vstd::prelude::*;

use crate::text::{
    before_char, chars_of, contains, contains_chars, decimal, find_char, find_char_in, is_ascii_digit,
    is_digit, is_text, lemma_find_char_bound, lines, lines_of, parse_u64, parse_u64_chars,
    push_decimal, push_str, slice_chars, split_whitespace, string_of, to_lowercase, to_uppercase,
    lowercase_of, uppercase_of, string_views, trim, trimmed, views, words_of,
};

verus! {

#[derive(Debug, Clone, Copy, PartialEq, Eq, Structural)]
pub enum SmartSummary {
    Good,
    PreFail,
    Bad,
}

#[derive(Debug, Clone, Copy, PartialEq, Eq, Structural)]
pub enum SmartAttrStatus {
    Good,
    Warn,
    Bad,
}

/// One line of the SMART attribute table.
#[derive(Debug)]
pub struct SmartAttr {
    pub name: String,
    pub raw_value: String,
    pub threshold: Option<String>,
    pub status: SmartAttrStatus,
    pub value: Option<u64>,
}

pub ghost struct SmartAttrView {
    pub name: Seq<char>,
    pub raw_value: Seq<char>,
    pub threshold: Option<Seq<char>>,
    pub status: SmartAttrStatus,
    pub value: Option<u64>,
}

pub open spec fn opt_view(o: Option<String>) -> Option<Seq<char>> {
    match o {
        Some(s) => Some(s@),
        None => None,
    }
}

impl View for SmartAttr {
    type V = SmartAttrView;

    open spec fn view(&self) -> SmartAttrView {
        SmartAttrView {
            name: self.name@,
            raw_value: self.raw_value@,
            threshold: opt_view(self.threshold),
            status: self.status,
            value: self.value,
        }
    }
}

pub open spec fn attr_views(v: Seq<SmartAttr>) -> Seq<SmartAttrView> {
    v.map_values(|a: SmartAttr| a@)
}

#[derive(Debug)]
pub struct SmartInfo {
    pub summary: SmartSummary,
    pub attributes: Vec<SmartAttr>,
    pub summary_reason: String,
}

#[derive(Debug)]
pub struct BlkidResult {
    pub ok: bool,
    pub output: String,
}

// ---------------------------------------------------------------------------
// The model
// ---------------------------------------------------------------------------

pub open spec fn unwrap_or(o: Option<u64>, d: u64) -> u64 {
    match o {
        Some(v) => v,
        None => d,
    }
}

/// The ASCII digits of `s`, in order.
pub open spec fn digits_in(s: Seq<char>) -> Seq<char>
    decreases s.len(),
{
    if s.len() == 0 {
        seq![]
    } else if is_digit(s.last()) {
        digits_in(s.drop_last()).push(s.last())
    } else {
        digits_in(s.drop_last())
    }
}

/// The number written by the digits of a raw value, all other characters
/// left out; none when there is no digit or the number does not fit a `u64`.
pub open spec fn raw_number(raw: Seq<char>) -> Option<u64> {
    let d = digits_in(raw);
    if d.len() == 0 {
        None
    } else {
        parse_u64(d)
    }
}

/// The first attribute named `name`.
pub open spec fn find_attr(attrs: Seq<SmartAttrView>, name: Seq<char>) -> Option<SmartAttrView>
    decreases attrs.len(),
{
    if attrs.len() == 0 {
        None
    } else if attrs[0].name == name {
        Some(attrs[0])
    } else {
        find_attr(attrs.drop_first(), name)
    }
}

pub open spec fn attr_number(attrs: Seq<SmartAttrView>, name: Seq<char>) -> Option<u64> {
    match find_attr(attrs, name) {
        Some(a) => raw_number(a.raw_value),
        None => None,
    }
}

pub open spec fn attr_value(attrs: Seq<SmartAttrView>, name: Seq<char>) -> Option<u64> {
    match find_attr(attrs, name) {
        Some(a) => a.value,
        None => None,
    }
}

/// Hours read from a power-on-minutes raw value: `"<h>h+<m>m..."` gives
/// `h + m / 60` (the minutes count as 0 when they do not parse, and the sum
/// wraps as `u64` arithmetic); without an `'h'` it is the raw number over 60.
pub open spec fn hours_from_minutes(raw: Seq<char>) -> Option<u64> {
    match find_char(raw, 'h') {
        Some(k) => {
            let hours_part = raw.take(k as int);
            let minutes_part = raw.skip(k + 1 as int);
            match parse_u64(trim(hours_part)) {
                Some(h) => {
                    let m = unwrap_or(parse_u64(trim(before_char(minutes_part, 'm'))), 0);
                    Some(((h + m / 60) % 0x1_0000_0000_0000_0000) as u64)
                },
                None => None,
            }
        },
        None => match raw_number(raw) {
            Some(m) => Some(m / 60),
            None => None,
        },
    }
}

pub open spec fn power_on_hours(attrs: Seq<SmartAttrView>) -> Option<u64> {
    match attr_number(attrs, "Power_On_Hours"@) {
        Some(h) => Some(h),
        None => match find_attr(attrs, "Power_On_Minutes"@) {
            Some(a) => hours_from_minutes(a.raw_value),
            None => None,
        },
    }
}

/// The health verdict, from the upper-cased health line and the attributes.
pub open spec fn summary_of(upper: Seq<char>, attrs: Seq<SmartAttrView>) -> SmartSummary {
    let pending = unwrap_or(attr_number(attrs, "Current_Pending_Sector"@), 0);
    let uncorrect = unwrap_or(attr_number(attrs, "Offline_Uncorrectable"@), 0);
    let reported = unwrap_or(attr_number(attrs, "Reported_Uncorrect"@), 0);
    let realloc = unwrap_or(attr_number(attrs, "Reallocated_Sector_Ct"@), 0);
    let realloc_value = unwrap_or(attr_value(attrs, "Reallocated_Sector_Ct"@), 100);
    if pending > 0 || uncorrect > 0 || reported > 0 || contains(upper, "FAILED"@) || (realloc
        > 50 && realloc_value < 50) {
        SmartSummary::Bad
    } else if contains(upper, "PASSED"@) && (realloc <= 5 || realloc_value >= 90) {
        SmartSummary::Good
    } else {
        SmartSummary::PreFail
    }
}

/// The sentence that explains a verdict.
pub open spec fn reason_of(
    summary: SmartSummary,
    upper: Seq<char>,
    attrs: Seq<SmartAttrView>,
) -> Seq<char> {
    let pending = unwrap_or(attr_number(attrs, "Current_Pending_Sector"@), 0);
    let uncorrect = unwrap_or(attr_number(attrs, "Offline_Uncorrectable"@), 0);
    let reported = unwrap_or(attr_number(attrs, "Reported_Uncorrect"@), 0);
    let realloc = unwrap_or(attr_number(attrs, "Reallocated_Sector_Ct"@), 0);
    let realloc_value = unwrap_or(attr_value(attrs, "Reallocated_Sector_Ct"@), 100);
    let hours = unwrap_or(power_on_hours(attrs), 0);
    match summary {
        SmartSummary::Good => "Excellent - aucun secteur dégradé, santé SMART OK"@,
        SmartSummary::PreFail => if 6 <= realloc <= 20 {
            "Surveiller - secteurs réalloués modérés ("@ + decimal(realloc as nat) + ")"@
        } else if hours > 30000 {
            "Surveiller - usage élevé ("@ + decimal(hours as nat) + " h)"@
        } else if !contains(upper, "PASSED"@) {
            "Surveiller - statut SMART indéterminé"@
        } else {
            "Surveiller - indicateurs limites"@
        },
        SmartSummary::Bad => if pending > 0 {
            "Défaillant - secteurs en attente ("@ + decimal(pending as nat) + ")"@
        } else if uncorrect > 0 || reported > 0 {
            "Défaillant - erreurs non corrigeables"@
        } else if realloc > 50 && realloc_value < 50 {
            "Défaillant - secteurs réalloués élevés ("@ + decimal(realloc as nat) + ")"@
        } else if contains(upper, "FAILED"@) {
            "Défaillant - statut SMART FAILED"@
        } else {
            "Défaillant - anomalies critiques"@
        },
    }
}

/// The colour of one attribute's dot.
pub open spec fn status_of(a: SmartAttrView) -> SmartAttrStatus {
    let num = unwrap_or(raw_number(a.raw_value), 0);
    let value = unwrap_or(a.value, 100);
    if a.name == "Reallocated_Sector_Ct"@ {
        if num > 50 && value < 50 {
            SmartAttrStatus::Bad
        } else if 6 <= num <= 20 && value >= 70 {
            SmartAttrStatus::Warn
        } else {
            SmartAttrStatus::Good
        }
    } else if a.name == "Current_Pending_Sector"@ || a.name == "Offline_Uncorrectable"@ || a.name
        == "Reported_Uncorrect"@ {
        if num > 0 {
            SmartAttrStatus::Bad
        } else {
            SmartAttrStatus::Good
        }
    } else if a.name == "Power_On_Hours"@ || a.name == "Power_On_Minutes"@ {
        if unwrap_or(power_on_hours(seq![a]), 0) > 30000 {
            SmartAttrStatus::Warn
        } else {
            SmartAttrStatus::Good
        }
    } else {
        SmartAttrStatus::Good
    }
}

/// The attributes that the report keeps.
pub open spec fn is_key_attr(name: Seq<char>) -> bool {
    ||| name == "Reallocated_Sector_Ct"@
    ||| name == "Current_Pending_Sector"@
    ||| name == "Offline_Uncorrectable"@
    ||| name == "Reported_Uncorrect"@
    ||| name == "Power_On_Hours"@
    ||| name == "Power_On_Minutes"@
}

/// The attribute that one line of the table describes, if it describes a
/// key attribute: the line starts (after whitespace) with a digit, its
/// second word is the name, its fourth the normalised value, its sixth the
/// threshold and its last the raw value.
pub open spec fn attr_of_line(line: Seq<char>) -> Option<SmartAttrView> {
    let t = trim(line);
    let parts = words_of(t);
    if t.len() == 0 || !is_digit(t[0]) || parts.len() < 2 || !is_key_attr(parts[1]) {
        None
    } else {
        Some(
            SmartAttrView {
                name: parts[1],
                raw_value: parts.last(),
                threshold: if parts.len() > 5 {
                    Some(parts[5])
                } else {
                    None
                },
                status: SmartAttrStatus::Good,
                value: if parts.len() > 3 {
                    parse_u64(parts[3])
                } else {
                    None
                },
            },
        )
    }
}

pub open spec fn attrs_of_lines(ls: Seq<Seq<char>>) -> Seq<SmartAttrView>
    decreases ls.len(),
{
    if ls.len() == 0 {
        seq![]
    } else {
        match attr_of_line(ls.last()) {
            Some(a) => attrs_of_lines(ls.drop_last()).push(a),
            None => attrs_of_lines(ls.drop_last()),
        }
    }
}

/// The key attributes of a `smartctl -a` report, in the order of its lines.
pub open spec fn attrs_of_report(output: Seq<char>) -> Seq<SmartAttrView> {
    attrs_of_lines(lines_of(output))
}

/// The first line of `ls` whose lower-cased form mentions the overall health.
pub open spec fn first_health_line(ls: Seq<Seq<char>>) -> Option<Seq<char>>
    decreases ls.len(),
{
    if ls.len() == 0 {
        None
    } else if contains(lowercase_of(ls[0]), "overall-health"@) {
        Some(ls[0])
    } else {
        first_health_line(ls.drop_first())
    }
}

/// The health line of a report, trimmed, or a fixed sentence without one.
pub open spec fn health_line_of(output: Seq<char>) -> Seq<char> {
    match first_health_line(lines_of(output)) {
        Some(l) => trim(l),
        None => trim("Statut SMART inconnu"@),
    }
}

// ---------------------------------------------------------------------------
// Laws of the verdict
// ---------------------------------------------------------------------------

/// Pending or uncorrectable sectors, or a FAILED health line, always give the
/// verdict `Bad`; `Good` is given only with a PASSED health line and no
/// pending or uncorrectable sector.
pub proof fn lemma_verdict_rules(upper: Seq<char>, attrs: Seq<SmartAttrView>)
    ensures
        unwrap_or(attr_number(attrs, "Current_Pending_Sector"@), 0) > 0 ==> summary_of(upper, attrs)
            == SmartSummary::Bad,
        unwrap_or(attr_number(attrs, "Offline_Uncorrectable"@), 0) > 0 ==> summary_of(upper, attrs)
            == SmartSummary::Bad,
        unwrap_or(attr_number(attrs, "Reported_Uncorrect"@), 0) > 0 ==> summary_of(upper, attrs)
            == SmartSummary::Bad,
        contains(upper, "FAILED"@) ==> summary_of(upper, attrs) == SmartSummary::Bad,
        summary_of(upper, attrs) == SmartSummary::Good ==> contains(upper, "PASSED"@) && unwrap_or(
            attr_number(attrs, "Current_Pending_Sector"@),
            0,
        ) == 0 && unwrap_or(attr_number(attrs, "Offline_Uncorrectable"@), 0) == 0,
{
}

/// The attributes that give the power-on time.
pub open spec fn is_power_attr(name: Seq<char>) -> bool {
    name == "Power_On_Hours"@ || name == "Power_On_Minutes"@
}

/// The attributes, in order, with those giving the power-on time left out.
pub open spec fn without_power(attrs: Seq<SmartAttrView>) -> Seq<SmartAttrView>
    decreases attrs.len(),
{
    if attrs.len() == 0 {
        seq![]
    } else if is_power_attr(attrs[0].name) {
        without_power(attrs.drop_first())
    } else {
        seq![attrs[0]] + without_power(attrs.drop_first())
    }
}

/// No two attributes carry the same name.
pub open spec fn names_distinct(attrs: Seq<SmartAttrView>) -> bool {
    forall|i: int, j: int|
        0 <= i < j < attrs.len() ==> (#[trigger] attrs[i]).name != (#[trigger] attrs[j]).name
}

proof fn lemma_find_attr_without_power(attrs: Seq<SmartAttrView>, name: Seq<char>)
    requires
        !is_power_attr(name),
    ensures
        find_attr(attrs, name) == find_attr(without_power(attrs), name),
    decreases attrs.len(),
{
    if attrs.len() > 0 {
        lemma_find_attr_without_power(attrs.drop_first(), name);
        if !is_power_attr(attrs[0].name) {
            let w = seq![attrs[0]] + without_power(attrs.drop_first());
            assert(w.drop_first() =~= without_power(attrs.drop_first()));
            assert(w[0] == attrs[0]);
        }
    }
}

/// The first attribute found under a name is one of the attributes, and
/// carries that name; none is found when no attribute carries it.
proof fn lemma_find_attr_found(attrs: Seq<SmartAttrView>, name: Seq<char>)
    ensures
        find_attr(attrs, name) matches Some(a) ==> a.name == name && attrs.contains(a),
        find_attr(attrs, name) is None ==> forall|i: int|
            0 <= i < attrs.len() ==> (#[trigger] attrs[i]).name != name,
    decreases attrs.len(),
{
    if attrs.len() > 0 {
        lemma_find_attr_found(attrs.drop_first(), name);
        if attrs[0].name != name {
            if let Some(a) = find_attr(attrs, name) {
                let k = choose|k: int| 0 <= k < attrs.drop_first().len() && attrs.drop_first()[k] == a;
                assert(attrs[k + 1] == a);
            } else {
                assert forall|i: int| 0 <= i < attrs.len() implies (#[trigger] attrs[i]).name
                    != name by {
                    if i > 0 {
                        assert(attrs[i] == attrs.drop_first()[i - 1]);
                    }
                }
            }
        } else {
            assert(attrs[0] == attrs[0]);
        }
    }
}

/// With distinct names, the attribute found under a name is the one that
/// carries it.
proof fn lemma_find_attr_at(attrs: Seq<SmartAttrView>, i: int)
    requires
        names_distinct(attrs),
        0 <= i < attrs.len(),
    ensures
        find_attr(attrs, attrs[i].name) == Some(attrs[i]),
    decreases attrs.len(),
{
    if i > 0 {
        assert(attrs[0].name != attrs[i].name);
        let rest = attrs.drop_first();
        assert forall|a: int, b: int| 0 <= a < b < rest.len() implies (#[trigger] rest[a]).name
            != (#[trigger] rest[b]).name by {
            assert(rest[a] == attrs[a + 1] && rest[b] == attrs[b + 1]);
        }
        lemma_find_attr_at(rest, i - 1);
        assert(rest[i - 1] == attrs[i]);
    }
}

/// The four attributes that decide the verdict carry different names, none
/// of them a power-on attribute.
proof fn lemma_key_names()
    ensures
        !is_power_attr("Current_Pending_Sector"@),
        !is_power_attr("Offline_Uncorrectable"@),
        !is_power_attr("Reported_Uncorrect"@),
        !is_power_attr("Reallocated_Sector_Ct"@),
        "Current_Pending_Sector"@ != "Reallocated_Sector_Ct"@,
        "Offline_Uncorrectable"@ != "Reallocated_Sector_Ct"@,
        "Reported_Uncorrect"@ != "Reallocated_Sector_Ct"@,
{
    reveal_strlit("Current_Pending_Sector");
    reveal_strlit("Offline_Uncorrectable");
    reveal_strlit("Reported_Uncorrect");
    reveal_strlit("Reallocated_Sector_Ct");
    reveal_strlit("Power_On_Hours");
    reveal_strlit("Power_On_Minutes");
    assert("Offline_Uncorrectable"@[0] != "Reallocated_Sector_Ct"@[0]);
    assert("Current_Pending_Sector"@[0] != "Power_On_Hours"@[0]);
    assert("Current_Pending_Sector"@[0] != "Power_On_Minutes"@[0]);
    assert("Reported_Uncorrect"@[2] != "Power_On_Hours"@[2]);
    assert("Reported_Uncorrect"@[2] != "Power_On_Minutes"@[2]);
}

/// When the verdict is `Good`, `PreFail` or `Bad`, in terms of the health
/// line and the numbers read from the attributes: `Bad` on a pending,
/// offline-uncorrectable or reported-uncorrect sector, a FAILED health line,
/// or more than 50 reallocated sectors with a normalised value under 50;
/// otherwise `Good` exactly when the health line says PASSED and at most 5
/// sectors were reallocated or their normalised value is at least 90.
pub proof fn lemma_verdict_cases(upper: Seq<char>, attrs: Seq<SmartAttrView>)
    ensures
        ({
            let pending = unwrap_or(attr_number(attrs, "Current_Pending_Sector"@), 0);
            let uncorrect = unwrap_or(attr_number(attrs, "Offline_Uncorrectable"@), 0);
            let reported = unwrap_or(attr_number(attrs, "Reported_Uncorrect"@), 0);
            let realloc = unwrap_or(attr_number(attrs, "Reallocated_Sector_Ct"@), 0);
            let value = unwrap_or(attr_value(attrs, "Reallocated_Sector_Ct"@), 100);
            let bad = pending > 0 || uncorrect > 0 || reported > 0 || contains(upper, "FAILED"@) || (
            realloc > 50 && value < 50);
            &&& (summary_of(upper, attrs) == SmartSummary::Bad <==> bad)
            &&& (summary_of(upper, attrs) == SmartSummary::Good <==> !bad && contains(
                upper,
                "PASSED"@,
            ) && (realloc <= 5 || value >= 90))
            &&& (summary_of(upper, attrs) == SmartSummary::PreFail <==> !bad && !(contains(
                upper,
                "PASSED"@,
            ) && (realloc <= 5 || value >= 90)))
        }),
{
}

/// With a PASSED health line, no FAILED, no pending or uncorrectable sector
/// and no critical reallocation, the verdict is `Good` exactly when at most
/// 5 sectors were reallocated or their normalised value is at least 90, and
/// `PreFail` otherwise.
pub proof fn lemma_passed_verdict(upper: Seq<char>, attrs: Seq<SmartAttrView>)
    requires
        contains(upper, "PASSED"@),
        !contains(upper, "FAILED"@),
        unwrap_or(attr_number(attrs, "Current_Pending_Sector"@), 0) == 0,
        unwrap_or(attr_number(attrs, "Offline_Uncorrectable"@), 0) == 0,
        unwrap_or(attr_number(attrs, "Reported_Uncorrect"@), 0) == 0,
        !(unwrap_or(attr_number(attrs, "Reallocated_Sector_Ct"@), 0) > 50 && unwrap_or(
            attr_value(attrs, "Reallocated_Sector_Ct"@),
            100,
        ) < 50),
    ensures
        summary_of(upper, attrs) == (if unwrap_or(attr_number(attrs, "Reallocated_Sector_Ct"@), 0)
            <= 5 || unwrap_or(attr_value(attrs, "Reallocated_Sector_Ct"@), 100) >= 90 {
            SmartSummary::Good
        } else {
            SmartSummary::PreFail
        }),
{
    lemma_verdict_cases(upper, attrs);
}

/// Power-on attributes leave the health verdict as it is: lists that match
/// once those attributes are taken out give one verdict for any health line.
pub proof fn lemma_power_on_never_decides(
    upper: Seq<char>,
    attrs: Seq<SmartAttrView>,
    attrs2: Seq<SmartAttrView>,
)
    requires
        without_power(attrs) == without_power(attrs2),
    ensures
        summary_of(upper, attrs) == summary_of(upper, attrs2),
{
    lemma_key_names();
    lemma_find_attr_without_power(attrs, "Current_Pending_Sector"@);
    lemma_find_attr_without_power(attrs2, "Current_Pending_Sector"@);
    lemma_find_attr_without_power(attrs, "Offline_Uncorrectable"@);
    lemma_find_attr_without_power(attrs2, "Offline_Uncorrectable"@);
    lemma_find_attr_without_power(attrs, "Reported_Uncorrect"@);
    lemma_find_attr_without_power(attrs2, "Reported_Uncorrect"@);
    lemma_find_attr_without_power(attrs, "Reallocated_Sector_Ct"@);
    lemma_find_attr_without_power(attrs2, "Reallocated_Sector_Ct"@);
}

/// With distinct names, the verdict is `Bad` exactly when the health line
/// says FAILED or some attribute's own status (the dot `apply_attr_statuses`
/// gives it) is `Bad`.
pub proof fn lemma_bad_verdict_has_bad_attr(upper: Seq<char>, attrs: Seq<SmartAttrView>)
    requires
        names_distinct(attrs),
    ensures
        summary_of(upper, attrs) == SmartSummary::Bad <==> (contains(upper, "FAILED"@) || exists|
            i: int,
        | 0 <= i < attrs.len() && status_of(#[trigger] attrs[i]) == SmartAttrStatus::Bad),
{
    lemma_key_names();
    lemma_find_attr_found(attrs, "Current_Pending_Sector"@);
    lemma_find_attr_found(attrs, "Offline_Uncorrectable"@);
    lemma_find_attr_found(attrs, "Reported_Uncorrect"@);
    lemma_find_attr_found(attrs, "Reallocated_Sector_Ct"@);
    if summary_of(upper, attrs) == SmartSummary::Bad && !contains(upper, "FAILED"@) {
        let n = if unwrap_or(attr_number(attrs, "Current_Pending_Sector"@), 0) > 0 {
            "Current_Pending_Sector"@
        } else if unwrap_or(attr_number(attrs, "Offline_Uncorrectable"@), 0) > 0 {
            "Offline_Uncorrectable"@
        } else if unwrap_or(attr_number(attrs, "Reported_Uncorrect"@), 0) > 0 {
            "Reported_Uncorrect"@
        } else {
            "Reallocated_Sector_Ct"@
        };
        let a = find_attr(attrs, n)->0;
        let i = choose|i: int| 0 <= i < attrs.len() && attrs[i] == a;
        assert(status_of(attrs[i]) == SmartAttrStatus::Bad);
    }
    if exists|i: int| 0 <= i < attrs.len() && status_of(#[trigger] attrs[i]) == SmartAttrStatus::Bad {
        let i = choose|i: int| 0 <= i < attrs.len() && status_of(#[trigger] attrs[i])
            == SmartAttrStatus::Bad;
        lemma_find_attr_at(attrs, i);
    }
}

// ---------------------------------------------------------------------------
// Numbers in raw values
// ---------------------------------------------------------------------------

pub fn get_raw_number(raw: &str) -> (res: Option<u64>)
    ensures
        res == raw_number(raw@),
{
    let cs = chars_of(raw);
    let mut digits: Vec<char> = Vec::new();
    let mut i: usize = 0;
    while i < cs.len()
        invariant
            i <= cs@.len(),
            digits@ == digits_in(cs@.take(i as int)),
        decreases cs@.len() - i,
    {
        assert(cs@.take(i + 1).drop_last() == cs@.take(i as int));
        if is_ascii_digit(cs[i]) {
            digits.push(cs[i]);
        }
        i = i + 1;
    }
    assert(cs@.take(cs@.len() as int) == cs@);
    if digits.len() == 0 {
        None
    } else {
        parse_u64_chars(digits.as_slice())
    }
}

pub fn parse_hours_from_minutes(raw: &str) -> (res: Option<u64>)
    ensures
        res == hours_from_minutes(raw@),
{
    let cs = chars_of(raw);
    match find_char_in(cs.as_slice(), 'h') {
        Some(k) => {
            proof {
                lemma_find_char_bound(cs@, 'h');
            }
            let hours_part = slice_chars(cs.as_slice(), 0, k);
            let minutes_part = slice_chars(cs.as_slice(), k + 1, cs.len());
            assert(hours_part@ == cs@.take(k as int));
            assert(minutes_part@ == cs@.skip(k + 1));
            let hours = match parse_u64_chars(trimmed(hours_part.as_slice()).as_slice()) {
                Some(h) => h,
                None => {
                    return None;
                },
            };
            let minutes_str = match find_char_in(minutes_part.as_slice(), 'm') {
                Some(j) => {
                    proof {
                        lemma_find_char_bound(minutes_part@, 'm');
                    }
                    slice_chars(minutes_part.as_slice(), 0, j)
                },
                None => minutes_part,
            };
            let minutes = match parse_u64_chars(trimmed(minutes_str.as_slice()).as_slice()) {
                Some(m) => m,
                None => 0,
            };
            Some(hours.wrapping_add(minutes / 60))
        },
        None => match get_raw_number(raw) {
            Some(m) => Some(m / 60),
            None => None,
        },
    }
}

// ---------------------------------------------------------------------------
// Looking attributes up
// ---------------------------------------------------------------------------

proof fn lemma_find_attr_skip(attrs: Seq<SmartAttrView>, name: Seq<char>, i: int)
    requires
        0 <= i < attrs.len(),
    ensures
        find_attr(attrs.skip(i), name) == (if attrs[i].name == name {
            Some(attrs[i])
        } else {
            find_attr(attrs.skip(i + 1), name)
        }),
{
    assert(attrs.skip(i).drop_first() == attrs.skip(i + 1));
    assert(attrs.skip(i)[0] == attrs[i]);
}

/// The index of the first attribute named `name`.
fn find_attr_index(attributes: &[SmartAttr], name: &str) -> (res: Option<usize>)
    ensures
        match res {
            Some(i) => i < attributes@.len() && find_attr(attr_views(attributes@), name@) == Some(
                attributes@[i as int]@,
            ),
            None => find_attr(attr_views(attributes@), name@) is None,
        },
{
    let ghost vs = attr_views(attributes@);
    let wanted = chars_of(name);
    let mut i: usize = 0;
    assert(vs.skip(0) == vs);
    while i < attributes.len()
        invariant
            i <= attributes@.len(),
            vs == attr_views(attributes@),
            wanted@ == name@,
            find_attr(vs, name@) == find_attr(vs.skip(i as int), name@),
        decreases attributes@.len() - i,
    {
        proof {
            lemma_find_attr_skip(vs, name@, i as int);
        }
        let n = chars_of(attributes[i].name.as_str());
        if crate::text::eq_chars(n.as_slice(), wanted.as_slice()) {
            return Some(i);
        }
        i = i + 1;
    }
    assert(vs.skip(i as int).len() == 0);
    None
}

pub fn get_attr_number(attributes: &[SmartAttr], name: &str) -> (res: Option<u64>)
    ensures
        res == attr_number(attr_views(attributes@), name@),
{
    match find_attr_index(attributes, name) {
        Some(i) => get_raw_number(attributes[i].raw_value.as_str()),
        None => None,
    }
}

pub fn get_attr_value(attributes: &[SmartAttr], name: &str) -> (res: Option<u64>)
    ensures
        res == attr_value(attr_views(attributes@), name@),
{
    match find_attr_index(attributes, name) {
        Some(i) => attributes[i].value,
        None => None,
    }
}

pub fn get_power_on_hours(attributes: &[SmartAttr]) -> (res: Option<u64>)
    ensures
        res == power_on_hours(attr_views(attributes@)),
{
    if let Some(hours) = get_attr_number(attributes, "Power_On_Hours") {
        return Some(hours);
    }
    match find_attr_index(attributes, "Power_On_Minutes") {
        Some(i) => parse_hours_from_minutes(attributes[i].raw_value.as_str()),
        None => None,
    }
}

// ---------------------------------------------------------------------------
// Verdict
// ---------------------------------------------------------------------------

/// The verdict for a health line already upper-cased.
pub fn summary_from_upper(health_upper: &str, attributes: &[SmartAttr]) -> (res: SmartSummary)
    ensures
        res == summary_of(health_upper@, attr_views(attributes@)),
{
    let upper = chars_of(health_upper);
    let health_passed = contains_chars(upper.as_slice(), chars_of("PASSED").as_slice());
    let health_failed = contains_chars(upper.as_slice(), chars_of("FAILED").as_slice());

    let pending = unwrap_or_exec(get_attr_number(attributes, "Current_Pending_Sector"), 0);
    let uncorrect = unwrap_or_exec(get_attr_number(attributes, "Offline_Uncorrectable"), 0);
    let reported = unwrap_or_exec(get_attr_number(attributes, "Reported_Uncorrect"), 0);
    let realloc = unwrap_or_exec(get_attr_number(attributes, "Reallocated_Sector_Ct"), 0);
    let realloc_value = unwrap_or_exec(get_attr_value(attributes, "Reallocated_Sector_Ct"), 100);

    if pending > 0 || uncorrect > 0 || reported > 0 || health_failed || (realloc > 50
        && realloc_value < 50) {
        return SmartSummary::Bad;
    }
    if health_passed && pending == 0 && uncorrect == 0 && (realloc <= 5 || realloc_value >= 90) {
        return SmartSummary::Good;
    }
    SmartSummary::PreFail
}

pub fn unwrap_or_exec(o: Option<u64>, d: u64) -> (res: u64)
    ensures
        res == unwrap_or(o, d),
{
    match o {
        Some(v) => v,
        None => d,
    }
}

/// The verdict for a report's health line and attributes.
pub fn compute_summary(health_line: &str, attributes: &[SmartAttr]) -> (res: SmartSummary)
    ensures
        res == summary_of(uppercase_of(health_line@), attr_views(attributes@)),
{
    let upper = to_uppercase(health_line);
    summary_from_upper(upper.as_str(), attributes)
}

/// The sentence for a verdict, the health line already upper-cased.
pub fn summary_reason_from_upper(
    summary: SmartSummary,
    health_upper: &str,
    attributes: &[SmartAttr],
) -> (res: String)
    ensures
        res@ == reason_of(summary, health_upper@, attr_views(attributes@)),
{
    let upper = chars_of(health_upper);
    let pending = unwrap_or_exec(get_attr_number(attributes, "Current_Pending_Sector"), 0);
    let uncorrect = unwrap_or_exec(get_attr_number(attributes, "Offline_Uncorrectable"), 0);
    let reported = unwrap_or_exec(get_attr_number(attributes, "Reported_Uncorrect"), 0);
    let realloc = unwrap_or_exec(get_attr_number(attributes, "Reallocated_Sector_Ct"), 0);
    let realloc_value = unwrap_or_exec(get_attr_value(attributes, "Reallocated_Sector_Ct"), 100);
    let power_hours = unwrap_or_exec(get_power_on_hours(attributes), 0);

    match summary {
        SmartSummary::Good => String::from_str("Excellent - aucun secteur dégradé, santé SMART OK"),
        SmartSummary::PreFail => {
            if realloc >= 6 && realloc <= 20 {
                let mut s = String::from_str("Surveiller - secteurs réalloués modérés (");
                push_decimal(&mut s, realloc);
                push_str(&mut s, ")");
                s
            } else if power_hours > 30000 {
                let mut s = String::from_str("Surveiller - usage élevé (");
                push_decimal(&mut s, power_hours);
                push_str(&mut s, " h)");
                s
            } else if !contains_chars(upper.as_slice(), chars_of("PASSED").as_slice()) {
                String::from_str("Surveiller - statut SMART indéterminé")
            } else {
                String::from_str("Surveiller - indicateurs limites")
            }
        },
        SmartSummary::Bad => {
            if pending > 0 {
                let mut s = String::from_str("Défaillant - secteurs en attente (");
                push_decimal(&mut s, pending);
                push_str(&mut s, ")");
                s
            } else if uncorrect > 0 || reported > 0 {
                String::from_str("Défaillant - erreurs non corrigeables")
            } else if realloc > 50 && realloc_value < 50 {
                let mut s = String::from_str("Défaillant - secteurs réalloués élevés (");
                push_decimal(&mut s, realloc);
                push_str(&mut s, ")");
                s
            } else if contains_chars(upper.as_slice(), chars_of("FAILED").as_slice()) {
                String::from_str("Défaillant - statut SMART FAILED")
            } else {
                String::from_str("Défaillant - anomalies critiques")
            }
        },
    }
}

pub fn compute_summary_reason(
    summary: SmartSummary,
    health_line: &str,
    attributes: &[SmartAttr],
) -> (res: String)
    ensures
        res@ == reason_of(summary, uppercase_of(health_line@), attr_views(attributes@)),
{
    let upper = to_uppercase(health_line);
    summary_reason_from_upper(summary, upper.as_str(), attributes)
}

// ---------------------------------------------------------------------------
// Attribute statuses
// ---------------------------------------------------------------------------

fn copy_opt_string(o: &Option<String>) -> (res: Option<String>)
    ensures
        opt_view(res) == opt_view(*o),
{
    match o {
        Some(s) => Some(s.clone()),
        None => None,
    }
}

/// A copy of `a` with the same view.
pub fn copy_attr(a: &SmartAttr) -> (res: SmartAttr)
    ensures
        res@ == a@,
{
    SmartAttr {
        name: a.name.clone(),
        raw_value: a.raw_value.clone(),
        threshold: copy_opt_string(&a.threshold),
        status: a.status,
        value: a.value,
    }
}

pub fn attr_status(a: &SmartAttr) -> (res: SmartAttrStatus)
    ensures
        res == status_of(a@),
{
    let num = unwrap_or_exec(get_raw_number(a.raw_value.as_str()), 0);
    let value = unwrap_or_exec(a.value, 100);
    let name = chars_of(a.name.as_str());
    if is_text(name.as_slice(), "Reallocated_Sector_Ct") {
        if num > 50 && value < 50 {
            SmartAttrStatus::Bad
        } else if num >= 6 && num <= 20 && value >= 70 {
            SmartAttrStatus::Warn
        } else {
            SmartAttrStatus::Good
        }
    } else if is_text(name.as_slice(), "Current_Pending_Sector") || is_text(
        name.as_slice(),
        "Offline_Uncorrectable",
    ) || is_text(name.as_slice(), "Reported_Uncorrect") {
        if num > 0 {
            SmartAttrStatus::Bad
        } else {
            SmartAttrStatus::Good
        }
    } else if is_text(name.as_slice(), "Power_On_Hours") || is_text(
        name.as_slice(),
        "Power_On_Minutes",
    ) {
        let single = vec![copy_attr(a)];
        assert(attr_views(single@) =~= seq![a@]);
        let hours = unwrap_or_exec(get_power_on_hours(single.as_slice()), 0);
        if hours > 30000 {
            SmartAttrStatus::Warn
        } else {
            SmartAttrStatus::Good
        }
    } else {
        SmartAttrStatus::Good
    }
}

/// Gives each attribute the status that its values call for.
pub fn apply_attr_statuses(attributes: &mut Vec<SmartAttr>)
    ensures
        final(attributes)@.len() == old(attributes)@.len(),
        forall|i: int|
            0 <= i < old(attributes)@.len() ==> #[trigger] final(attributes)@[i]@ == (SmartAttrView {
                status: status_of(old(attributes)@[i]@),
                ..old(attributes)@[i]@
            }),
{
    let ghost before = attributes@;
    let mut i: usize = 0;
    while i < attributes.len()
        invariant
            i <= attributes@.len() == before.len(),
            forall|k: int|
                i <= k < before.len() ==> #[trigger] attributes@[k] == before[k],
            forall|k: int|
                0 <= k < i ==> #[trigger] attributes@[k]@ == (SmartAttrView {
                    status: status_of(before[k]@),
                    ..before[k]@
                }),
        decreases before.len() - i,
    {
        let status = attr_status(&attributes[i]);
        let mut a = copy_attr(&attributes[i]);
        a.status = status;
        attributes.set(i, a);
        i = i + 1;
    }
}

// ---------------------------------------------------------------------------
// Reports
// ---------------------------------------------------------------------------

fn attr_from_line(line: &[char]) -> (res: Option<SmartAttr>)
    ensures
        match res {
            Some(a) => attr_of_line(line@) == Some(a@),
            None => attr_of_line(line@) is None,
        },
{
    let t = trimmed(line);
    let parts = split_whitespace(t.as_slice());
    if t.len() == 0 || !is_ascii_digit(t[0]) || parts.len() < 2 {
        return None;
    }
    assert(views(parts@)[1] == parts@[1]@);
    let name = &parts[1];
    let key = is_text(name.as_slice(), "Reallocated_Sector_Ct") || is_text(
        name.as_slice(),
        "Current_Pending_Sector",
    ) || is_text(name.as_slice(), "Offline_Uncorrectable") || is_text(
        name.as_slice(),
        "Reported_Uncorrect",
    ) || is_text(name.as_slice(), "Power_On_Hours") || is_text(
        name.as_slice(),
        "Power_On_Minutes",
    );
    if !key {
        return None;
    }
    let last = parts.len() - 1;
    assert(views(parts@)[last as int] == parts@[last as int]@);
    let raw_value = string_of(parts[last].as_slice());
    let value = if parts.len() > 3 {
        assert(views(parts@)[3] == parts@[3]@);
        parse_u64_chars(parts[3].as_slice())
    } else {
        None
    };
    let threshold = if parts.len() > 5 {
        assert(views(parts@)[5] == parts@[5]@);
        Some(string_of(parts[5].as_slice()))
    } else {
        None
    };
    Some(
        SmartAttr {
            name: string_of(name.as_slice()),
            raw_value,
            threshold,
            status: SmartAttrStatus::Good,
            value,
        },
    )
}

/// The key attributes of a report, each with status `Good`.
pub fn parse_smart_attributes(output: &str) -> (res: Vec<SmartAttr>)
    ensures
        attr_views(res@) == attrs_of_report(output@),
{
    let ls = lines(chars_of(output).as_slice());
    let mut attrs: Vec<SmartAttr> = Vec::new();
    let mut i: usize = 0;
    while i < ls.len()
        invariant
            i <= ls@.len(),
            views(ls@) == lines_of(output@),
            attr_views(attrs@) == attrs_of_lines(views(ls@).take(i as int)),
        decreases ls@.len() - i,
    {
        assert(views(ls@).take(i + 1).drop_last() == views(ls@).take(i as int));
        assert(views(ls@)[i as int] == ls@[i as int]@);
        match attr_from_line(ls[i].as_slice()) {
            Some(a) => {
                proof {
                    assert(attr_views(attrs@.push(a)) =~= attr_views(attrs@).push(a@));
                }
                attrs.push(a);
            },
            None => {},
        }
        i = i + 1;
    }
    assert(views(ls@).take(ls@.len() as int) == views(ls@));
    attrs
}

/// The first of `ls` whose lower-cased form, given in `lowers` at the same
/// place, mentions the overall health.
pub open spec fn first_health_by(ls: Seq<Seq<char>>, lowers: Seq<Seq<char>>) -> Option<Seq<char>>
    decreases ls.len(),
{
    if ls.len() == 0 || lowers.len() == 0 {
        None
    } else if contains(lowers[0], "overall-health"@) {
        Some(ls[0])
    } else {
        first_health_by(ls.drop_first(), lowers.drop_first())
    }
}

/// The health line among `ls`, trimmed, or a fixed sentence without one.
pub open spec fn health_choice(ls: Seq<Seq<char>>, lowers: Seq<Seq<char>>) -> Seq<char> {
    match first_health_by(ls, lowers) {
        Some(l) => trim(l),
        None => trim("Statut SMART inconnu"@),
    }
}

proof fn lemma_first_health_by_skip(ls: Seq<Seq<char>>, lowers: Seq<Seq<char>>, i: int)
    requires
        0 <= i < ls.len(),
        i < lowers.len(),
    ensures
        first_health_by(ls.skip(i), lowers.skip(i)) == (if contains(lowers[i], "overall-health"@) {
            Some(ls[i])
        } else {
            first_health_by(ls.skip(i + 1), lowers.skip(i + 1))
        }),
{
    assert(ls.skip(i).drop_first() == ls.skip(i + 1));
    assert(lowers.skip(i).drop_first() == lowers.skip(i + 1));
    assert(ls.skip(i)[0] == ls[i]);
    assert(lowers.skip(i)[0] == lowers[i]);
}

/// With each line's lower-cased form beside it, the choice is that of the
/// report's health line.
proof fn lemma_first_health_by_lowercase(ls: Seq<Seq<char>>, lowers: Seq<Seq<char>>)
    requires
        ls.len() == lowers.len(),
        forall|i: int| 0 <= i < ls.len() ==> lowers[i] == lowercase_of(#[trigger] ls[i]),
    ensures
        first_health_by(ls, lowers) == first_health_line(ls),
    decreases ls.len(),
{
    if ls.len() > 0 {
        let (a, b) = (ls.drop_first(), lowers.drop_first());
        assert forall|i: int| 0 <= i < a.len() implies b[i] == lowercase_of(#[trigger] a[i]) by {
            assert(a[i] == ls[i + 1] && b[i] == lowers[i + 1]);
        }
        lemma_first_health_by_lowercase(a, b);
        assert(lowers[0] == lowercase_of(ls[0]));
    }
}

/// The health line among the lines of a report, each given with its
/// lower-cased form: the first whose lower-cased form mentions
/// "overall-health", trimmed.
pub fn pick_health_line(lines: &[String], lowers: &[String]) -> (res: String)
    ensures
        res@ == health_choice(string_views(lines@), string_views(lowers@)),
{
    let ghost vs = string_views(lines@);
    let ghost ws = string_views(lowers@);
    let key = chars_of("overall-health");
    let mut i: usize = 0;
    assert(vs.skip(0) == vs);
    assert(ws.skip(0) == ws);
    while i < lines.len() && i < lowers.len()
        invariant
            i <= lines@.len(),
            i <= lowers@.len(),
            vs == string_views(lines@),
            ws == string_views(lowers@),
            key@ == "overall-health"@,
            first_health_by(vs, ws) == first_health_by(vs.skip(i as int), ws.skip(i as int)),
        decreases lines@.len() - i,
    {
        proof {
            lemma_first_health_by_skip(vs, ws, i as int);
        }
        assert(ws[i as int] == lowers@[i as int]@);
        assert(vs[i as int] == lines@[i as int]@);
        if contains_chars(chars_of(lowers[i].as_str()).as_slice(), key.as_slice()) {
            return string_of(trimmed(chars_of(lines[i].as_str()).as_slice()).as_slice());
        }
        i = i + 1;
    }
    assert(vs.skip(i as int).len() == 0 || ws.skip(i as int).len() == 0);
    string_of(trimmed(chars_of("Statut SMART inconnu").as_slice()).as_slice())
}

/// The health line of a report.
pub fn parse_health_line(output: &str) -> (res: String)
    ensures
        res@ == health_line_of(output@),
{
    let ls = lines(chars_of(output).as_slice());
    let mut texts: Vec<String> = Vec::new();
    let mut lowers: Vec<String> = Vec::new();
    let mut i: usize = 0;
    while i < ls.len()
        invariant
            i <= ls@.len(),
            texts@.len() == i,
            lowers@.len() == i,
            forall|k: int| 0 <= k < i ==> (#[trigger] texts@[k])@ == ls@[k]@,
            forall|k: int| 0 <= k < i ==> (#[trigger] lowers@[k])@ == lowercase_of(ls@[k]@),
        decreases ls@.len() - i,
    {
        let line = string_of(ls[i].as_slice());
        let lower = to_lowercase(line.as_str());
        texts.push(line);
        lowers.push(lower);
        i = i + 1;
    }
    proof {
        let vs = string_views(texts@);
        assert(vs =~= lines_of(output@)) by {
            assert forall|k: int| 0 <= k < vs.len() implies vs[k] == lines_of(output@)[k] by {
                assert(vs[k] == texts@[k]@);
                assert(views(ls@)[k] == ls@[k]@);
            }
        }
        lemma_first_health_by_lowercase(vs, string_views(lowers@));
    }
    pick_health_line(texts.as_slice(), lowers.as_slice())
}

/// What `smartctl -a` run on a disk tells: on failure the error to show
/// (its standard error trimmed, or a fixed sentence when that is empty);
/// otherwise the verdict, its reason and the key attributes with their
/// statuses.
pub fn smart_info_from_output(success: bool, stdout: &str, stderr: &str) -> (res: Result<
    SmartInfo,
    String,
>)
    ensures
        !success ==> (res matches Err(e) && e@ == (if trim(stderr@).len() == 0 {
            "smartctl -a a échoué"@
        } else {
            trim(stderr@)
        })),
        success ==> (res matches Ok(info) && {
            let health = health_line_of(stdout@);
            let attrs = attrs_of_report(stdout@);
            &&& info.summary == summary_of(uppercase_of(health), attrs)
            &&& info.summary_reason@ == reason_of(info.summary, uppercase_of(health), attrs)
            &&& info.attributes@.len() == attrs.len()
            &&& forall|i: int|
                0 <= i < attrs.len() ==> #[trigger] info.attributes@[i]@ == (SmartAttrView {
                    status: status_of(attrs[i]),
                    ..attrs[i]
                })
        }),
{
    if !success {
        let e = trimmed(chars_of(stderr).as_slice());
        if e.len() == 0 {
            return Err(String::from_str("smartctl -a a échoué"));
        }
        return Err(string_of(e.as_slice()));
    }
    let health_line = parse_health_line(stdout);
    let mut attributes = parse_smart_attributes(stdout);
    let summary = compute_summary(health_line.as_str(), attributes.as_slice());
    let summary_reason = compute_summary_reason(summary, health_line.as_str(), attributes.as_slice());
    let ghost parsed = attributes@;
    apply_attr_statuses(&mut attributes);
    assert forall|i: int| 0 <= i < parsed.len() implies attr_views(parsed)[i] == parsed[i]@ by {}
    Ok(SmartInfo { summary, attributes, summary_reason })
}

/// What `blkid` run on a wiped disk tells: an error when it failed, printed
/// nothing and its error says the tool is missing; otherwise the disk is
/// clean when nothing was printed, and what was printed (trimmed) is kept.
pub fn blkid_result_from_output(success: bool, stdout: &str, stderr: &str) -> (res: Result<
    BlkidResult,
    String,
>)
    ensures
        ({
            let out = trim(stdout@);
            let err = trim(stderr@);
            if !success && out.len() == 0 && (contains(err, "No such file"@) || contains(
                err,
                "not found"@,
            )) {
                res matches Err(e) && e@ == "blkid n'est pas disponible"@
            } else if out.len() == 0 {
                res matches Ok(r) && r.ok && r.output@ == Seq::<char>::empty()
            } else {
                res matches Ok(r) && !r.ok && r.output@ == out
            }
        }),
{
    let out = trimmed(chars_of(stdout).as_slice());
    let err = trimmed(chars_of(stderr).as_slice());
    if !success && out.len() == 0 {
        if contains_chars(err.as_slice(), chars_of("No such file").as_slice()) || contains_chars(
            err.as_slice(),
            chars_of("not found").as_slice(),
        ) {
            return Err(String::from_str("blkid n'est pas disponible"));
        }
    }
    if out.len() == 0 {
        Ok(BlkidResult { ok: true, output: String::new() })
    } else {
        Ok(BlkidResult { ok: false, output: string_of(out.as_slice()) })
    }
}

} // verus!
