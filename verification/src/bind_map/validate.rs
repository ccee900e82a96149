//! Pair validation: does this sidecar coherently describe this IP file?
//!
//! The check order is fixed so the reported reason is reproducible. Coherence
//! comes first: rows held during a hash mismatch may be about to be replaced,
//! and reporting a row bug for stale content sends a writer chasing the wrong
//! thing.
use vstd::prelude::*;

use crate::text::{chars_eq, chars_of, push_all, push_str, string_of};

use super::error::{BindMapError, ErrorView};
use super::iface::IfaceOracle;
use super::ip::{ip_parse, parse_ip, IpAddress};
use super::sidecar::{BindMapDoc, RawRow, RawRowView};
use super::types::{
    id_path_outcome,
    iface_name_outcome,
    link_id_outcome,
    parse_id_path,
    BindMapRow,
    IfaceName,
    IpsFile,
    LinkId,
    MappedPool,
    RowView,
};

verus! {

/// Abstract value of a mapped pool.
pub struct PoolView {
    pub generation: u64,
    pub ips_file_sha256: Seq<char>,
    pub rows: Seq<RowView>,
}

impl View for MappedPool {
    type V = PoolView;

    open spec fn view(&self) -> PoolView {
        PoolView {
            generation: self.generation,
            ips_file_sha256: self.ips_file_sha256@,
            rows: Seq::new(self.rows@.len(), |i: int| self.rows@[i]@),
        }
    }
}

/// Everything validation needs beyond the two files themselves.
pub struct ValidateCtx<'a, O: IfaceOracle> {
    /// Answers "does this interface exist right now?".
    pub ifaces: &'a O,
    /// The last mapping actually applied, if any: only used to order generations.
    pub prior: Option<&'a MappedPool>,
}

/// The detail of a row whose `ip` field does not parse; the tail is the
/// standard library's `AddrParseError` text for an IP address.
pub open spec fn not_ip_detail(t: Seq<char>) -> Seq<char> {
    "`"@ + t + "` is not an IP address: invalid IP address syntax"@
}

pub open spec fn invalid_row(index: usize, field: Seq<char>, detail: Seq<char>) -> ErrorView {
    ErrorView::InvalidRow { index, field, detail }
}

/// Field syntax of one raw row, in field order.
pub open spec fn row_syntax(raw: RawRowView, index: usize) -> Result<RowView, ErrorView> {
    match link_id_outcome(raw.link_id) {
        Err(e) => Err(invalid_row(index, "link_id"@, e)),
        Ok(id) => match ip_parse(raw.ip) {
            None => Err(invalid_row(index, "ip"@, not_ip_detail(raw.ip))),
            Some(ip) => match iface_name_outcome(raw.iface) {
                Err(e) => Err(invalid_row(index, "iface"@, e)),
                Ok(name) => match raw.id_path {
                    Some(p) => match id_path_outcome(p) {
                        Err(e) => Err(invalid_row(index, "id_path"@, e)),
                        Ok(pp) => Ok(RowView { link_id: id, ip, iface: name, id_path: Some(pp) }),
                    },
                    None => Ok(RowView { link_id: id, ip, iface: name, id_path: None }),
                },
            },
        },
    }
}

/// Each answer was one the oracle may give about its row's interface:
/// `answers[i]` is about the interface named in row `i`.
pub open spec fn asked<O: IfaceOracle>(ifaces: &O, raws: Seq<RawRowView>, answers: Seq<bool>) -> bool {
    &&& answers.len() <= raws.len()
    &&& forall|i: int| 0 <= i < answers.len() ==> ifaces.may_answer(raws[i].iface, #[trigger] answers[i])
}

/// Row syntax, then interface existence, in index order; `answers[i]` is
/// what the oracle said about row `i`'s interface.
pub open spec fn rows_outcome(raws: Seq<RawRowView>, answers: Seq<bool>) -> Result<
    Seq<RowView>,
    ErrorView,
>
    decreases raws.len(),
{
    if raws.len() == 0 {
        Ok(seq![])
    } else {
        match rows_outcome(raws.drop_last(), answers) {
            Err(e) => Err(e),
            Ok(rows) => {
                let i = (raws.len() - 1) as usize;
                match row_syntax(raws.last(), i) {
                    Err(e) => Err(e),
                    Ok(row) => if answers[i as int] {
                        Ok(rows.push(row))
                    } else {
                        Err(ErrorView::UnknownIface { index: i, iface: raws.last().iface })
                    },
                }
            },
        }
    }
}

/// First index from `i` on where the rows and the accepted IPs disagree.
pub open spec fn first_ip_mismatch(rows: Seq<RowView>, accepted: Seq<IpAddress>, i: int) -> Option<
    int,
>
    decreases rows.len() - i,
{
    if i < 0 || i >= rows.len() {
        None
    } else if rows[i].ip != accepted[i] {
        Some(i)
    } else {
        first_ip_mismatch(rows, accepted, i + 1)
    }
}

/// The Nth row must describe the Nth accepted IP-list entry.
pub open spec fn correspondence_outcome(rows: Seq<RowView>, accepted: Seq<IpAddress>) -> Result<
    (),
    ErrorView,
> {
    if rows.len() != accepted.len() {
        Err(
            ErrorView::RowCountMismatch {
                sidecar: rows.len() as usize,
                ips_file: accepted.len() as usize,
            },
        )
    } else {
        match first_ip_mismatch(rows, accepted, 0) {
            Some(i) => Err(
                ErrorView::RowIpMismatch {
                    index: i as usize,
                    sidecar: rows[i].ip,
                    ips_file: accepted[i],
                },
            ),
            None => Ok(()),
        }
    }
}

/// An earlier row has the same `(ip, iface)` socket key.
pub open spec fn dup_pair(rows: Seq<RowView>, i: int) -> bool {
    exists|j: int| 0 <= j < i && rows[j].ip == rows[i].ip && rows[j].iface == rows[i].iface
}

/// An earlier row has the same `link_id`.
pub open spec fn dup_id(rows: Seq<RowView>, i: int) -> bool {
    exists|j: int| 0 <= j < i && rows[j].link_id == rows[i].link_id
}

pub open spec fn first_dup(rows: Seq<RowView>, i: int) -> Option<int>
    decreases rows.len() - i,
{
    if i < 0 || i >= rows.len() {
        None
    } else if dup_pair(rows, i) || dup_id(rows, i) {
        Some(i)
    } else {
        first_dup(rows, i + 1)
    }
}

/// `(ip, iface)` is the socket key and `link_id` is the identity; neither may
/// repeat. At the first offending row the socket key is checked first.
pub open spec fn uniqueness_outcome(rows: Seq<RowView>) -> Result<(), ErrorView> {
    match first_dup(rows, 0) {
        Some(i) => if dup_pair(rows, i) {
            Err(
                ErrorView::DuplicatePair {
                    index: i as usize,
                    ip: rows[i].ip,
                    iface: rows[i].iface,
                },
            )
        } else {
            Err(ErrorView::DuplicateLinkId { index: i as usize, link_id: rows[i].link_id })
        },
        None => Ok(()),
    }
}

/// A mapping that changed while its generation and digest stood still
/// cannot be ordered against what is already applied. A decreased generation
/// is not checked: it is indistinguishable from a writer restart.
pub open spec fn generation_outcome(candidate: PoolView, prior: Option<PoolView>) -> Result<
    (),
    ErrorView,
> {
    match prior {
        Some(p) => if candidate.generation == p.generation && candidate.ips_file_sha256
            == p.ips_file_sha256 && candidate.rows != p.rows {
            Err(ErrorView::StaleGeneration { generation: candidate.generation })
        } else {
            Ok(())
        },
        None => Ok(()),
    }
}

pub open spec fn raw_views(raws: Seq<RawRow>) -> Seq<RawRowView> {
    Seq::new(raws.len(), |i: int| raws[i]@)
}

pub open spec fn prior_view(prior: Option<&MappedPool>) -> Option<PoolView> {
    match prior {
        Some(p) => Some(p@),
        None => None,
    }
}

/// The whole validation, given the oracle's answers.
pub open spec fn validate_outcome(
    ips_sha: Seq<char>,
    accepted: Seq<IpAddress>,
    doc_generation: u64,
    doc_sha: Seq<char>,
    raws: Seq<RawRowView>,
    prior: Option<PoolView>,
    answers: Seq<bool>,
) -> Result<PoolView, ErrorView> {
    if doc_sha != ips_sha {
        Err(ErrorView::HashMismatch { sidecar: doc_sha, computed: ips_sha })
    } else {
        match rows_outcome(raws, answers) {
            Err(e) => Err(e),
            Ok(rows) => match correspondence_outcome(rows, accepted) {
                Err(e) => Err(e),
                Ok(_) => match uniqueness_outcome(rows) {
                    Err(e) => Err(e),
                    Ok(_) => {
                        let pool = PoolView {
                            generation: doc_generation,
                            ips_file_sha256: doc_sha,
                            rows,
                        };
                        match generation_outcome(pool, prior) {
                            Err(e) => Err(e),
                            Ok(_) => Ok(pool),
                        }
                    },
                },
            },
        }
    }
}

pub open spec fn rows_seq_view(rows: Seq<BindMapRow>) -> Seq<RowView> {
    Seq::new(rows.len(), |i: int| rows[i]@)
}

fn invalid_row_error(index: usize, field: &'static str, detail: String) -> (e: BindMapError)
    ensures
        e@ == invalid_row(index, field@, detail@),
{
    BindMapError::InvalidRow { index, field, detail }
}

/// Field syntax of one raw row.
fn parse_row(raw: &RawRow, index: usize) -> (r: Result<BindMapRow, BindMapError>)
    ensures
        match row_syntax(raw@, index) {
            Ok(v) => r matches Ok(row) && row@ == v,
            Err(ev) => r matches Err(e) && e@ == ev,
        },
{
    let link_id = match LinkId::parse(raw.link_id.as_str()) {
        Ok(id) => id,
        Err(e) => return Err(invalid_row_error(index, "link_id", e)),
    };
    let ip = match parse_ip(raw.ip.as_str()) {
        Some(ip) => ip,
        None => {
            let mut d: Vec<char> = Vec::new();
            push_str(&mut d, "`");
            let t = chars_of(raw.ip.as_str());
            push_all(&mut d, &t);
            push_str(&mut d, "` is not an IP address: invalid IP address syntax");
            return Err(invalid_row_error(index, "ip", string_of(&d)));
        },
    };
    let iface = match IfaceName::parse(raw.iface.as_str()) {
        Ok(n) => n,
        Err(e) => return Err(invalid_row_error(index, "iface", e)),
    };
    let id_path = match &raw.id_path {
        Some(p) => match parse_id_path(p.as_str()) {
            Ok(pp) => Some(pp),
            Err(e) => return Err(invalid_row_error(index, "id_path", e)),
        },
        None => None,
    };
    Ok(BindMapRow { link_id, ip, iface, id_path })
}

proof fn lemma_rows_err_extends(raws: Seq<RawRowView>, answers: Seq<bool>, k: int)
    requires
        0 <= k <= raws.len(),
        rows_outcome(raws.take(k), answers) is Err,
    ensures
        rows_outcome(raws, answers) == rows_outcome(raws.take(k), answers),
    decreases raws.len() - k,
{
    if k < raws.len() {
        let next = raws.take(k + 1);
        assert(next.drop_last() == raws.take(k));
        lemma_rows_err_extends(raws, answers, k + 1);
    } else {
        assert(raws.take(k) == raws);
    }
}

proof fn lemma_rows_answers_agree(raws: Seq<RawRowView>, a: Seq<bool>, b: Seq<bool>)
    requires
        forall|i: int| 0 <= i < raws.len() ==> a[i] == b[i],
    ensures
        rows_outcome(raws, a) == rows_outcome(raws, b),
    decreases raws.len(),
{
    if raws.len() > 0 {
        lemma_rows_answers_agree(raws.drop_last(), a, b);
    }
}

/// Row syntax, then interface existence, in index order.
fn parse_rows<O: IfaceOracle>(doc: &BindMapDoc, ifaces: &O) -> (r: Result<
    Vec<BindMapRow>,
    BindMapError,
>)
    ensures
        exists|answers: Seq<bool>|
            #![trigger rows_outcome(raw_views(doc.links@), answers)]
            asked(ifaces, raw_views(doc.links@), answers) && match rows_outcome(
                raw_views(doc.links@),
                answers,
            ) {
                Ok(v) => r matches Ok(rows) && rows_seq_view(rows@) == v,
                Err(ev) => r matches Err(e) && e@ == ev,
            },
{
    let raws = doc.raw_links();
    let ghost rv = raw_views(doc.links@);
    let mut rows: Vec<BindMapRow> = Vec::new();
    let ghost mut answers: Seq<bool> = seq![];
    let mut index: usize = 0;
    assert(rv.take(0) == Seq::<RawRowView>::empty());
    while index < raws.len()
        invariant
            index <= raws@.len(),
            raws@ == doc.links@,
            rv == raw_views(doc.links@),
            answers.len() == index,
            asked(ifaces, rv, answers),
            rows_outcome(rv.take(index as int), answers) matches Ok(v) && v == rows_seq_view(
                rows@,
            ),
        decreases raws@.len() - index,
    {
        let raw = &raws[index];
        proof {
            assert(rv.take(index + 1).drop_last() == rv.take(index as int));
            assert(rv.take(index + 1).last() == raw@);
        }
        let row = match parse_row(raw, index) {
            Ok(row) => row,
            Err(e) => {
                proof {
                    assert(rows_outcome(rv.take(index + 1), answers) is Err);
                    lemma_rows_err_extends(rv, answers, index + 1);
                    assert(rows_outcome(raw_views(doc.links@), answers) matches Err(ev) && ev == e@);
                }
                return Err(e);
            },
        };
        let present = ifaces.iface_exists(row.iface.as_str());
        proof {
            let a2 = answers.push(present);
            lemma_rows_answers_agree(rv.take(index as int), answers, a2);
            assert(row@ == row_syntax(raw@, index)->Ok_0);
            assert(rv[index as int] == raw@);
            assert forall|i: int| 0 <= i < a2.len() implies ifaces.may_answer(
                rv[i].iface,
                #[trigger] a2[i],
            ) by {
                if i < index {
                    assert(a2[i] == answers[i]);
                }
            }
            answers = a2;
        }
        if !present {
            let name = row.iface.as_str().to_owned();
            proof {
                assert(rows_outcome(rv.take(index + 1), answers) is Err);
                lemma_rows_err_extends(rv, answers, index + 1);
            }
            let e = BindMapError::UnknownIface { index, iface: name };
            proof {
                assert(rows_outcome(raw_views(doc.links@), answers) matches Err(ev) && ev == e@);
            }
            return Err(e);
        }
        let ghost before = rows@;
        let ghost rview = row@;
        rows.push(row);
        proof {
            assert(rows_seq_view(rows@) =~= rows_seq_view(before).push(rview));
            assert(answers[index as int] == present);
        }
        index += 1;
    }
    proof {
        assert(rv.take(raws@.len() as int) == rv);
        assert(rows_outcome(raw_views(doc.links@), answers) matches Ok(v) && v == rows_seq_view(
            rows@,
        ));
    }
    Ok(rows)
}

/// The Nth row must describe the Nth accepted IP-list entry: the whole basis
/// of duplicate-IP disambiguation. There is no partial acceptance.
fn check_correspondence(rows: &[BindMapRow], accepted: &[IpAddress]) -> (r: Result<
    (),
    BindMapError,
>)
    ensures
        match correspondence_outcome(rows_seq_view(rows@), accepted@) {
            Ok(_) => r is Ok,
            Err(ev) => r matches Err(e) && e@ == ev,
        },
{
    let ghost rv = rows_seq_view(rows@);
    if rows.len() != accepted.len() {
        return Err(BindMapError::RowCountMismatch { sidecar: rows.len(), ips_file: accepted.len() });
    }
    let mut index: usize = 0;
    while index < rows.len()
        invariant
            index <= rows@.len(),
            rows@.len() == accepted@.len(),
            rv == rows_seq_view(rows@),
            first_ip_mismatch(rv, accepted@, 0) == first_ip_mismatch(rv, accepted@, index as int),
        decreases rows@.len() - index,
    {
        if rows[index].ip != accepted[index] {
            return Err(
                BindMapError::RowIpMismatch {
                    index,
                    sidecar: rows[index].ip,
                    ips_file: accepted[index],
                },
            );
        }
        index += 1;
    }
    Ok(())
}

/// Whether an earlier row repeats row `i`'s socket key or identity.
fn earlier_duplicates(rows: &[BindMapRow], i: usize) -> (r: (bool, bool))
    requires
        i < rows@.len(),
    ensures
        r.0 == dup_pair(rows_seq_view(rows@), i as int),
        r.1 == dup_id(rows_seq_view(rows@), i as int),
{
    let ghost rv = rows_seq_view(rows@);
    let ip = rows[i].ip;
    let iface = chars_of(rows[i].iface.as_str());
    let id = chars_of(rows[i].link_id.as_str());
    let mut pair = false;
    let mut same_id = false;
    let mut j: usize = 0;
    while j < i
        invariant
            j <= i < rows@.len(),
            rv == rows_seq_view(rows@),
            ip == rv[i as int].ip,
            iface@ == rv[i as int].iface,
            id@ == rv[i as int].link_id,
            pair == exists|k: int| 0 <= k < j && rv[k].ip == rv[i as int].ip && rv[k].iface == rv[i as int].iface,
            same_id == exists|k: int| 0 <= k < j && rv[k].link_id == rv[i as int].link_id,
        decreases i - j,
    {
        let other_iface = chars_of(rows[j].iface.as_str());
        let other_id = chars_of(rows[j].link_id.as_str());
        if rows[j].ip == ip && chars_eq(&other_iface, &iface) {
            pair = true;
        }
        if chars_eq(&other_id, &id) {
            same_id = true;
        }
        proof {
            assert(rv[j as int].ip == rows@[j as int].ip);
        }
        j += 1;
    }
    (pair, same_id)
}

/// `(ip, iface)` is the socket key and `link_id` is the identity; neither may repeat.
fn check_uniqueness(rows: &[BindMapRow]) -> (r: Result<(), BindMapError>)
    ensures
        match uniqueness_outcome(rows_seq_view(rows@)) {
            Ok(_) => r is Ok,
            Err(ev) => r matches Err(e) && e@ == ev,
        },
{
    let ghost rv = rows_seq_view(rows@);
    let mut index: usize = 0;
    while index < rows.len()
        invariant
            index <= rows@.len(),
            rv == rows_seq_view(rows@),
            first_dup(rv, 0) == first_dup(rv, index as int),
        decreases rows@.len() - index,
    {
        let (pair, same_id) = earlier_duplicates(rows, index);
        if pair {
            let iface = rows[index].iface.as_str().to_owned();
            return Err(BindMapError::DuplicatePair { index, ip: rows[index].ip, iface });
        }
        if same_id {
            let link_id = rows[index].link_id.as_str().to_owned();
            return Err(BindMapError::DuplicateLinkId { index, link_id });
        }
        index += 1;
    }
    Ok(())
}

fn opt_text_eq(a: &Option<String>, b: &Option<String>) -> (r: bool)
    ensures
        r == (super::types::opt_text(*a) == super::types::opt_text(*b)),
{
    match (a, b) {
        (Some(x), Some(y)) => {
            let xc = chars_of(x.as_str());
            let yc = chars_of(y.as_str());
            chars_eq(&xc, &yc)
        },
        (None, None) => true,
        _ => false,
    }
}

/// Whether two rows have the same abstract value.
fn row_eq(a: &BindMapRow, b: &BindMapRow) -> (r: bool)
    ensures
        r == (a@ == b@),
{
    let ai = chars_of(a.link_id.as_str());
    let bi = chars_of(b.link_id.as_str());
    let af = chars_of(a.iface.as_str());
    let bf = chars_of(b.iface.as_str());
    chars_eq(&ai, &bi) && a.ip == b.ip && chars_eq(&af, &bf) && opt_text_eq(&a.id_path, &b.id_path)
}

/// Whether two row lists have the same abstract value.
fn rows_eq(a: &[BindMapRow], b: &[BindMapRow]) -> (r: bool)
    ensures
        r == (rows_seq_view(a@) == rows_seq_view(b@)),
{
    if a.len() != b.len() {
        proof {
            assert(rows_seq_view(a@).len() != rows_seq_view(b@).len());
        }
        return false;
    }
    let mut i: usize = 0;
    while i < a.len()
        invariant
            i <= a@.len(),
            a@.len() == b@.len(),
            forall|k: int| 0 <= k < i ==> #[trigger] a@[k]@ == b@[k]@,
        decreases a@.len() - i,
    {
        if !row_eq(&a[i], &b[i]) {
            proof {
                assert(rows_seq_view(a@)[i as int] != rows_seq_view(b@)[i as int]);
            }
            return false;
        }
        i += 1;
    }
    assert(rows_seq_view(a@) =~= rows_seq_view(b@));
    true
}

/// A mapping that changed while its generation stood still cannot be ordered
/// against what is already applied, so it is refused rather than guessed at.
fn check_generation(candidate: &MappedPool, prior: Option<&MappedPool>) -> (r: Result<
    (),
    BindMapError,
>)
    ensures
        match generation_outcome(candidate@, prior_view(prior)) {
            Ok(_) => r is Ok,
            Err(ev) => r matches Err(e) && e@ == ev,
        },
{
    let prior = match prior {
        Some(p) => p,
        None => return Ok(()),
    };
    let cs = chars_of(candidate.ips_file_sha256.as_str());
    let ps = chars_of(prior.ips_file_sha256.as_str());
    let same_epoch = candidate.generation == prior.generation && chars_eq(&cs, &ps);
    if same_epoch && !rows_eq(&candidate.rows, &prior.rows) {
        proof {
            assert(candidate@.rows == rows_seq_view(candidate.rows@));
            assert(prior@.rows == rows_seq_view(prior.rows@));
        }
        return Err(BindMapError::StaleGeneration { generation: candidate.generation });
    }
    proof {
        assert(candidate@.rows == rows_seq_view(candidate.rows@));
        assert(prior@.rows == rows_seq_view(prior.rows@));
    }
    Ok(())
}

/// Validate a candidate `(ips_file, sidecar)` pair into an applicable mapping.
///
/// Order: digest coherence, row syntax and interface existence, row/IP
/// correspondence, uniqueness, generation.
pub fn validate_pair<O: IfaceOracle>(ips: &IpsFile, doc: BindMapDoc, ctx: ValidateCtx<'_, O>) -> (r:
    Result<MappedPool, BindMapError>)
    ensures
        exists|answers: Seq<bool>|
            #![trigger rows_outcome(raw_views(doc.links@), answers)]
            asked(ctx.ifaces, raw_views(doc.links@), answers) && match validate_outcome(
                ips.digest_text(),
                ips.accepted_ips(),
                doc.generation,
                doc.ips_file_sha256@,
                raw_views(doc.links@),
                prior_view(ctx.prior),
                answers,
            ) {
                Ok(v) => r matches Ok(pool) && pool@ == v,
                Err(ev) => r matches Err(e) && e@ == ev,
            },
{
    let ghost rv = raw_views(doc.links@);
    let ds = chars_of(doc.ips_file_sha256.as_str());
    let is = chars_of(ips.sha256());
    if !chars_eq(&ds, &is) {
        let e = BindMapError::HashMismatch {
            sidecar: doc.ips_file_sha256,
            computed: ips.sha256().to_owned(),
        };
        proof {
            let a: Seq<bool> = seq![];
            assert(rows_outcome(rv, a) == rows_outcome(raw_views(doc.links@), a));
        }
        return Err(e);
    }
    let rows_r = parse_rows(&doc, ctx.ifaces);
    let ghost answers = choose|answers: Seq<bool>|
        #![trigger rows_outcome(raw_views(doc.links@), answers)]
        asked(ctx.ifaces, raw_views(doc.links@), answers) && match rows_outcome(
            raw_views(doc.links@),
            answers,
        ) {
            Ok(v) => rows_r matches Ok(rows) && rows_seq_view(rows@) == v,
            Err(ev) => rows_r matches Err(e) && e@ == ev,
        };
    let rows = match rows_r {
        Ok(rows) => rows,
        Err(e) => return Err(e),
    };
    match check_correspondence(&rows, ips.accepted()) {
        Ok(_) => {},
        Err(e) => return Err(e),
    }
    match check_uniqueness(&rows) {
        Ok(_) => {},
        Err(e) => return Err(e),
    }
    let pool = MappedPool { generation: doc.generation, ips_file_sha256: doc.ips_file_sha256, rows };
    proof {
        assert(pool@.rows =~= rows_seq_view(pool.rows@));
    }
    match check_generation(&pool, ctx.prior) {
        Ok(_) => {},
        Err(e) => return Err(e),
    }
    Ok(pool)
}

} // verus!
