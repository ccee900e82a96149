//! Ablation switches of the adaptive scheduler: which feature bits every
//! selector runs, spelled as the `SRTLA_ADAPTIVE_FEATURES` value.
//!
//! One token table backs both the parser and the operator-facing list of
//! active bits, so a campaign manifest round-trips what it asked for. The
//! shipped build reads no environment: `features()` is the default set.
use vstd::prelude::*;

use crate::text::{
    chars_eq_str, chars_of, parse_u32, parse_u32_chars, push_all, push_decimal, push_str,
    split_chars, split_on, string_of, trim, trim_chars, decimal,
};

verus! {

/// Name of the variable that selects the feature bits.
pub const FEATURES_ENV: &'static str = "SRTLA_ADAPTIVE_FEATURES";
/// Name of the variable that overrides the tuning constants.
pub const TUNING_ENV: &'static str = "SRTLA_ADAPTIVE_TUNING";
/// Number of feature bits, one per token of the table.
pub const FEATURE_COUNT: u16 = 9;
/// Every feature bit set.
pub const ALL_FEATURE_BITS: u16 = 0x1ff;
/// The bits the release binary runs.
pub const DEFAULT_FEATURE_BITS: u16 = 0x1ff;
/// Largest accepted `stall_attempts` override.
pub const MAX_STALL_ATTEMPTS: u32 = 10_000;

/// A set of scheduler features, one bit per token of the table.
#[derive(Clone, Copy, Debug, PartialEq, Eq, Structural)]
pub struct SchedulerFeatures {
    bits: u16,
}

impl View for SchedulerFeatures {
    type V = u16;

    closed spec fn view(&self) -> u16 {
        self.bits
    }
}

/// Only the table's bits are ever set.
pub open spec fn features_wf(bits: u16) -> bool {
    bits <= ALL_FEATURE_BITS
}

/// The token of table entry `i`, in emission order.
pub open spec fn token_name(i: int) -> Seq<char> {
    if i == 0 {
        "stall"@
    } else if i == 1 {
        "loss"@
    } else if i == 2 {
        "queue"@
    } else if i == 3 {
        "deadline"@
    } else if i == 4 {
        "rejoin"@
    } else if i == 5 {
        "sole"@
    } else if i == 6 {
        "pref"@
    } else if i == 7 {
        "ratecap"@
    } else {
        "quality"@
    }
}

/// The table entry whose token is `t`.
pub open spec fn token_index(t: Seq<char>) -> Option<int> {
    if t == token_name(0) {
        Some(0)
    } else if t == token_name(1) {
        Some(1)
    } else if t == token_name(2) {
        Some(2)
    } else if t == token_name(3) {
        Some(3)
    } else if t == token_name(4) {
        Some(4)
    } else if t == token_name(5) {
        Some(5)
    } else if t == token_name(6) {
        Some(6)
    } else if t == token_name(7) {
        Some(7)
    } else if t == token_name(8) {
        Some(8)
    } else {
        None
    }
}

/// The bit of table entry `i`.
pub open spec fn token_bit(i: int) -> u16 {
    (1u16 << (i as u16)) as u16
}

pub open spec fn has_bit(bits: u16, i: int) -> bool {
    (bits >> (i as u16)) & 1u16 == 1u16
}

/// The tokens of the set bits from entry `i` on, in table order.
pub open spec fn selected(bits: u16, i: int) -> Seq<Seq<char>>
    decreases 9 - i,
{
    if i < 0 || i >= 9 {
        seq![]
    } else if has_bit(bits, i) {
        seq![token_name(i)] + selected(bits, i + 1)
    } else {
        selected(bits, i + 1)
    }
}

/// Names joined with commas.
pub open spec fn join_names(ns: Seq<Seq<char>>) -> Seq<char>
    decreases ns.len(),
{
    if ns.len() == 0 {
        seq![]
    } else if ns.len() == 1 {
        ns[0]
    } else {
        ns[0] + ","@ + join_names(ns.drop_first())
    }
}

/// The operator-readable form of a feature set: its tokens joined by commas,
/// or `none`.
pub open spec fn csv_of(bits: u16) -> Seq<char> {
    if selected(bits, 0).len() == 0 {
        "none"@
    } else {
        join_names(selected(bits, 0))
    }
}

/// Fold the comma-separated tokens into `acc`, stopping at the first unknown
/// one (reported trimmed).
pub open spec fn parse_tokens(toks: Seq<Seq<char>>, acc: u16) -> Result<u16, Seq<char>>
    decreases toks.len(),
{
    if toks.len() == 0 {
        Ok(acc)
    } else {
        let t = trim(toks[0]);
        match token_index(t) {
            None => Err(t),
            Some(j) => parse_tokens(toks.drop_first(), acc | token_bit(j)),
        }
    }
}

/// Why a feature value was refused.
pub enum FeaturesFailure {
    Empty,
    UnknownFeature(Seq<char>),
}

/// What `parse_features` makes of the variable's value (`None`: unset).
/// `all`, `none` and `default` are whole-value words; inside a comma list
/// they are unknown tokens.
pub open spec fn features_outcome(raw: Option<Seq<char>>) -> Result<u16, FeaturesFailure> {
    match raw {
        None => Ok(DEFAULT_FEATURE_BITS),
        Some(r) => {
            let t = trim(r);
            if t == "all"@ {
                Ok(ALL_FEATURE_BITS)
            } else if t == "none"@ {
                Ok(0u16)
            } else if t == "default"@ {
                Ok(DEFAULT_FEATURE_BITS)
            } else if t.len() == 0 {
                Err(FeaturesFailure::Empty)
            } else {
                match parse_tokens(split_on(t, ','), 0) {
                    Ok(b) => Ok(b),
                    Err(tok) => Err(FeaturesFailure::UnknownFeature(tok)),
                }
            }
        },
    }
}

/// A refused `SRTLA_ADAPTIVE_FEATURES` value.
#[derive(Debug, Clone)]
pub enum FeaturesError {
    /// The value is empty (or only whitespace).
    Empty,
    /// A comma-list entry (trimmed) names no feature.
    UnknownFeature(String),
}

impl View for FeaturesError {
    type V = FeaturesFailure;

    open spec fn view(&self) -> FeaturesFailure {
        match self {
            FeaturesError::Empty => FeaturesFailure::Empty,
            FeaturesError::UnknownFeature(t) => FeaturesFailure::UnknownFeature(t@),
        }
    }
}

/// The table's tokens from entry `i` on, in table order.
pub open spec fn all_tokens(i: int) -> Seq<Seq<char>>
    decreases 9 - i,
{
    if i < 0 || i >= 9 {
        seq![]
    } else {
        seq![token_name(i)] + all_tokens(i + 1)
    }
}

/// The table's tokens, comma-separated.
pub open spec fn token_list() -> Seq<char> {
    join_names(all_tokens(0))
}

pub open spec fn features_message(e: FeaturesFailure) -> Seq<char> {
    match e {
        FeaturesFailure::Empty => FEATURES_ENV@
            + " is empty: use `default`, `all`, `none`, or a comma list of "@ + token_list(),
        FeaturesFailure::UnknownFeature(t) => FEATURES_ENV@ + ": unknown feature '"@ + t
            + "'; expected one of "@ + token_list() + " (or the whole value `all`, `none`, `default`)"@,
    }
}

impl FeaturesError {
    /// The startup error line for this refusal.
    pub fn message(&self) -> (m: String)
        ensures
            m@ == features_message(self@),
    {
        let mut out: Vec<char> = Vec::new();
        match self {
            FeaturesError::Empty => {
                push_str(&mut out, FEATURES_ENV);
                push_str(&mut out, " is empty: use `default`, `all`, `none`, or a comma list of ");
                push_str(&mut out, feature_tokens().as_str());
            },
            FeaturesError::UnknownFeature(t) => {
                push_str(&mut out, FEATURES_ENV);
                push_str(&mut out, ": unknown feature '");
                push_str(&mut out, t.as_str());
                push_str(&mut out, "'; expected one of ");
                push_str(&mut out, feature_tokens().as_str());
                push_str(&mut out, " (or the whole value `all`, `none`, `default`)");
            },
        }
        string_of(&out)
    }
}

impl Default for SchedulerFeatures {
    fn default() -> (f: Self)
        ensures
            f@ == DEFAULT_FEATURE_BITS,
    {
        SchedulerFeatures { bits: DEFAULT_FEATURE_BITS }
    }
}

impl SchedulerFeatures {
    /// No feature.
    pub fn none() -> (f: Self)
        ensures
            f@ == 0,
    {
        SchedulerFeatures { bits: 0 }
    }

    /// Every feature.
    pub fn all() -> (f: Self)
        ensures
            f@ == ALL_FEATURE_BITS,
    {
        SchedulerFeatures { bits: ALL_FEATURE_BITS }
    }

    /// The set with the given bits; bits outside the table are dropped.
    pub fn from_bits(bits: u16) -> (f: Self)
        ensures
            f@ == bits & ALL_FEATURE_BITS,
            features_wf(f@),
    {
        assert(bits & 0x1ff <= 0x1ff) by (bit_vector);
        SchedulerFeatures { bits: bits & ALL_FEATURE_BITS }
    }

    pub fn bits(self) -> (b: u16)
        ensures
            b == self@,
    {
        self.bits
    }

    /// Whether every bit of `other` is set here.
    pub fn contains(self, other: Self) -> (b: bool)
        ensures
            b == (self@ & other@ == other@),
    {
        self.bits & other.bits == other.bits
    }

    /// The union of two sets.
    pub fn union(self, other: Self) -> (f: Self)
        ensures
            f@ == self@ | other@,
    {
        SchedulerFeatures { bits: self.bits | other.bits }
    }
}

fn token_str(i: u16) -> (s: &'static str)
    requires
        i < 9,
    ensures
        s@ == token_name(i as int),
{
    if i == 0 {
        "stall"
    } else if i == 1 {
        "loss"
    } else if i == 2 {
        "queue"
    } else if i == 3 {
        "deadline"
    } else if i == 4 {
        "rejoin"
    } else if i == 5 {
        "sole"
    } else if i == 6 {
        "pref"
    } else if i == 7 {
        "ratecap"
    } else {
        "quality"
    }
}

fn index_of_token(t: &[char]) -> (r: Option<u16>)
    ensures
        match r {
            Some(j) => j < 9 && token_index(t@) == Some(j as int),
            None => token_index(t@) is None,
        },
{
    let mut i: u16 = 0;
    while i < 9
        invariant
            i <= 9,
            forall|k: int| 0 <= k < i ==> t@ != token_name(k),
        decreases 9 - i,
    {
        if chars_eq_str(t, token_str(i)) {
            return Some(i);
        }
        i += 1;
    }
    None
}

/// `None` (unset) is the shipped default. `all`, `none` and `default` are
/// whole-value words; otherwise the value is a comma list of tokens, each
/// trimmed, and an unknown or empty one is a startup error.
pub fn parse_features(raw: Option<&str>) -> (r: Result<SchedulerFeatures, FeaturesError>)
    ensures
        match r {
            Ok(f) => features_outcome(opt_view(raw)) == Ok::<u16, FeaturesFailure>(f@),
            Err(e) => features_outcome(opt_view(raw)) == Err::<u16, FeaturesFailure>(e@),
        },
{
    let r = match raw {
        None => return Ok(SchedulerFeatures::default()),
        Some(r) => r,
    };
    let chars = chars_of(r);
    let t = trim_chars(&chars);
    if chars_eq_str(&t, "all") {
        return Ok(SchedulerFeatures::all());
    }
    if chars_eq_str(&t, "none") {
        return Ok(SchedulerFeatures::none());
    }
    if chars_eq_str(&t, "default") {
        return Ok(SchedulerFeatures::default());
    }
    if t.len() == 0 {
        return Err(FeaturesError::Empty);
    }
    let parts = split_chars(&t, ',');
    let ghost ps = split_on(t@, ',');
    let mut acc: u16 = 0;
    let mut i: usize = 0;
    proof {
        assert(ps.skip(0) == ps);
    }
    while i < parts.len()
        invariant
            i <= parts@.len(),
            parts@.len() == ps.len(),
            forall|k: int| 0 <= k < parts@.len() ==> #[trigger] parts@[k]@ == ps[k],
            parse_tokens(ps.skip(i as int), acc) == parse_tokens(ps, 0),
            raw == Some(r),
            ps == split_on(trim(r@), ','),
            trim(r@) != "all"@,
            trim(r@) != "none"@,
            trim(r@) != "default"@,
            trim(r@).len() > 0,
        decreases parts@.len() - i,
    {
        let tok = trim_chars(&parts[i]);
        proof {
            assert(ps.skip(i as int)[0] == ps[i as int]);
            assert(ps.skip(i as int).drop_first() == ps.skip(i + 1));
        }
        match index_of_token(&tok) {
            None => {
                proof {
                    assert(parse_tokens(ps.skip(i as int), acc) == Err::<u16, Seq<char>>(tok@));
                    assert(parse_tokens(split_on(trim(r@), ','), 0) == Err::<u16, Seq<char>>(
                        tok@,
                    ));
                }
                let e = FeaturesError::UnknownFeature(string_of(&tok));
                proof {
                    assert(e@ == FeaturesFailure::UnknownFeature(tok@));
                    assert(features_outcome(opt_view(raw)) == Err::<u16, FeaturesFailure>(e@));
                }
                return Err(e);
            },
            Some(j) => {
                acc = acc | (1u16 << j);
            },
        }
        i += 1;
    }
    proof {
        assert(ps.skip(ps.len() as int) == Seq::<Seq<char>>::empty());
    }
    Ok(SchedulerFeatures { bits: acc })
}

pub open spec fn opt_view(raw: Option<&str>) -> Option<Seq<char>> {
    match raw {
        Some(r) => Some(r@),
        None => None,
    }
}

/// The keys the tuning override accepts, in listing order.
pub open spec fn tuning_key_names() -> Seq<Seq<char>> {
    seq!["stall_attempts"@, "loss_enter"@, "deadline_hold_fraction"@, "ratecap_loss_backoff"@]
}

/// The tuning keys, comma-separated, for error messages.
pub fn tuning_keys() -> (s: String)
    ensures
        s@ == join_names(tuning_key_names()),
{
    let mut out: Vec<char> = Vec::new();
    push_str(&mut out, "stall_attempts");
    push_str(&mut out, ",");
    push_str(&mut out, "loss_enter");
    push_str(&mut out, ",");
    push_str(&mut out, "deadline_hold_fraction");
    push_str(&mut out, ",");
    push_str(&mut out, "ratecap_loss_backoff");
    proof {
        let ks = tuning_key_names();
        assert(ks.drop_first().drop_first().drop_first() =~= seq!["ratecap_loss_backoff"@]);
        assert(ks.drop_first().drop_first() =~= seq!["deadline_hold_fraction"@, "ratecap_loss_backoff"@]);
        assert(ks.drop_first() =~= seq!["loss_enter"@, "deadline_hold_fraction"@, "ratecap_loss_backoff"@]);
        assert(join_names(ks.drop_first().drop_first().drop_first()) == "ratecap_loss_backoff"@);
        assert(join_names(ks.drop_first().drop_first()) == "deadline_hold_fraction"@ + ","@
            + "ratecap_loss_backoff"@);
        assert(join_names(ks.drop_first()) == "loss_enter"@ + ","@ + ("deadline_hold_fraction"@ + ","@
            + "ratecap_loss_backoff"@));
        assert(out@ =~= join_names(ks));
    }
    string_of(&out)
}

/// Every token of the table, comma-separated, for error messages.
pub fn feature_tokens() -> (s: String)
    ensures
        s@ == token_list(),
{
    let mut out: Vec<char> = Vec::new();
    push_str(&mut out, token_str(8));
    let mut i: u16 = 8;
    proof {
        assert(all_tokens(9) == Seq::<Seq<char>>::empty());
        assert(all_tokens(8) =~= seq![token_name(8)]);
    }
    while i > 0
        invariant
            i <= 8,
            out@ == join_names(all_tokens(i as int)),
        decreases i,
    {
        let mut next: Vec<char> = Vec::new();
        push_str(&mut next, token_str(i - 1));
        push_str(&mut next, ",");
        push_all(&mut next, &out);
        proof {
            let a = all_tokens(i - 1);
            assert(a == seq![token_name(i - 1)] + all_tokens(i as int));
            assert(a[0] == token_name(i - 1));
            assert(a.drop_first() =~= all_tokens(i as int));
            assert(all_tokens(i as int).len() >= 1);
        }
        out = next;
        i -= 1;
    }
    string_of(&out)
}

/// The tokens of the active bits, in table order; `none` is an empty list.
pub fn feature_names(features: SchedulerFeatures) -> (r: Vec<&'static str>)
    ensures
        r@.len() == selected(features@, 0).len(),
        forall|k: int| 0 <= k < r@.len() ==> #[trigger] r@[k]@ == selected(features@, 0)[k],
{
    let mut out: Vec<&'static str> = Vec::new();
    let mut i: u16 = 0;
    let ghost mut done: Seq<Seq<char>> = seq![];
    while i < 9
        invariant
            i <= 9,
            out@.len() == done.len(),
            forall|k: int| 0 <= k < out@.len() ==> #[trigger] out@[k]@ == done[k],
            selected(features@, 0) == done + selected(features@, i as int),
        decreases 9 - i,
    {
        if (features.bits >> i) & 1 == 1 {
            let name = token_str(i);
            out.push(name);
            proof {
                let d0 = done;
                done = done.push(name@);
                assert(d0 + selected(features@, i as int) == done + selected(features@, i + 1));
            }
        }
        i += 1;
    }
    proof {
        assert(done + seq![] == done);
    }
    out
}

/// The active bits as the operator reads them: tokens joined by commas, or
/// `none`.
pub fn features_csv(features: SchedulerFeatures) -> (s: String)
    ensures
        s@ == csv_of(features@),
{
    let names = feature_names(features);
    let ghost ns = selected(features@, 0);
    if names.len() == 0 {
        return "none".to_owned();
    }
    let mut out: Vec<char> = Vec::new();
    let mut i: usize = names.len();
    // Build from the back: join(ns.skip(i - 1)) grows leftwards.
    let last = names[i - 1];
    push_str(&mut out, last);
    proof {
        assert(ns.skip(i - 1).len() == 1);
        assert(join_names(ns.skip(i - 1)) == ns[i - 1]);
    }
    i -= 1;
    while i > 0
        invariant
            0 <= i < names@.len(),
            names@.len() == ns.len(),
            forall|k: int| 0 <= k < names@.len() ==> #[trigger] names@[k]@ == ns[k],
            out@ == join_names(ns.skip(i as int)),
        decreases i,
    {
        let mut next: Vec<char> = Vec::new();
        push_str(&mut next, names[i - 1]);
        push_str(&mut next, ",");
        push_all(&mut next, &out);
        proof {
            let s = ns.skip(i - 1);
            assert(s.len() >= 2);
            assert(s[0] == ns[i - 1]);
            assert(s.drop_first() == ns.skip(i as int));
        }
        out = next;
        i -= 1;
    }
    proof {
        assert(ns.skip(0) == ns);
    }
    string_of(&out)
}

/// The feature set this build runs: the release binary reads no environment.
pub fn features() -> (f: SchedulerFeatures)
    ensures
        f@ == DEFAULT_FEATURE_BITS,
{
    SchedulerFeatures::default()
}

/// Resolve the ablation variables once at startup. The release binary reads
/// none, so this always succeeds.
pub fn init_from_env() -> (r: Result<(), String>)
    ensures
        r is Ok,
{
    Ok(())
}

/// What `parse_attempts` makes of a `stall_attempts` override.
pub open spec fn attempts_outcome(key: Seq<char>, value: Seq<char>) -> Result<u32, Seq<char>> {
    match parse_u32(value) {
        None => Err(TUNING_ENV@ + ": "@ + key + "='"@ + value + "' is not an integer"@),
        Some(n) => if 1 <= n <= MAX_STALL_ATTEMPTS {
            Ok(n)
        } else {
            Err(TUNING_ENV@ + ": "@ + key + "="@ + decimal(n as nat) + " is outside 1..=10000"@)
        },
    }
}

/// Parse a `stall_attempts` override: an integer in `1..=10000`. Zero would
/// latch every link stalled on its first send; the bound keeps a typo from
/// disabling the detector.
pub fn parse_attempts(key: &str, value: &str) -> (r: Result<u32, String>)
    ensures
        match r {
            Ok(n) => attempts_outcome(key@, value@) == Ok::<u32, Seq<char>>(n),
            Err(e) => attempts_outcome(key@, value@) == Err::<u32, Seq<char>>(e@),
        },
{
    let v = chars_of(value);
    let mut out: Vec<char> = Vec::new();
    push_str(&mut out, TUNING_ENV);
    push_str(&mut out, ": ");
    push_str(&mut out, key);
    match parse_u32_chars(&v) {
        None => {
            push_str(&mut out, "='");
            push_str(&mut out, value);
            push_str(&mut out, "' is not an integer");
            Err(string_of(&out))
        },
        Some(n) => {
            if 1 <= n && n <= MAX_STALL_ATTEMPTS {
                Ok(n)
            } else {
                push_str(&mut out, "=");
                push_decimal(&mut out, n as u64);
                push_str(&mut out, " is outside 1..=10000");
                Err(string_of(&out))
            }
        },
    }
}

/// A token with no comma and no whitespace.
pub open spec fn clean(s: Seq<char>) -> bool {
    s.len() > 0 && forall|k: int| 0 <= k < s.len() ==> s[k] != ',' && !crate::text::is_ws(#[trigger] s[k])
}

proof fn lemma_token_clean(j: int)
    requires
        0 <= j < 9,
    ensures
        clean(token_name(j)),
        token_index(token_name(j)) == Some(j),
        token_name(j) != "all"@,
        token_name(j) != "none"@,
        token_name(j) != "default"@,
{
    reveal_strlit("stall");
    reveal_strlit("loss");
    reveal_strlit("queue");
    reveal_strlit("deadline");
    reveal_strlit("rejoin");
    reveal_strlit("sole");
    reveal_strlit("pref");
    reveal_strlit("ratecap");
    reveal_strlit("quality");
    reveal_strlit("all");
    reveal_strlit("none");
    reveal_strlit("default");
    let t = token_name(j);
    assert forall|k: int| 0 <= k < 9 && k != j implies token_name(k) != t by {
        assert(token_name(k).len() != t.len() || token_name(k)[0] != t[0]);
    }
    assert("all"@.len() != t.len() || "all"@[0] != t[0]);
    assert("none"@.len() != t.len() || "none"@[0] != t[0]);
    assert("default"@.len() != t.len() || "default"@[0] != t[0]);
}

proof fn lemma_trim_clean(s: Seq<char>)
    requires
        clean(s),
    ensures
        trim(s) == s,
{
    assert(!crate::text::is_ws(s[0]));
    assert(crate::text::trim_start(s) == s);
    assert(!crate::text::is_ws(s.last()));
}

proof fn lemma_run_until_clean(a: Seq<char>, b: Seq<char>)
    requires
        forall|k: int| 0 <= k < a.len() ==> #[trigger] a[k] != ',',
    ensures
        crate::text::run_until(a + ","@ + b, ',') == a.len(),
        crate::text::run_until(a, ',') == a.len(),
    decreases a.len(),
{
    reveal_strlit(",");
    if a.len() > 0 {
        let rest = a.drop_first();
        lemma_run_until_clean(rest, b);
        assert((a + ","@ + b).drop_first() == rest + ","@ + b);
        assert((a + ","@ + b)[0] == a[0]);
    } else {
        assert((a + ","@ + b)[0] == ',');
    }
}

proof fn lemma_selected_tokens(bits: u16, i: int)
    requires
        0 <= i <= 9,
    ensures
        forall|k: int| 0 <= k < selected(bits, i).len() ==> plain_token(#[trigger] selected(bits, i)[k]),
    decreases 9 - i,
{
    if i < 9 {
        lemma_selected_tokens(bits, i + 1);
        if has_bit(bits, i) {
            lemma_token_clean(i);
            let s = selected(bits, i);
            assert(s[0] == token_name(i));
            assert forall|k: int| 0 <= k < s.len() implies plain_token(#[trigger] s[k]) by {
                if k > 0 {
                    assert(s[k] == selected(bits, i + 1)[k - 1]);
                }
            }
        } else {
            assert(selected(bits, i) == selected(bits, i + 1));
        }
    } else {
        assert(selected(bits, i).len() == 0);
    }
}

/// A clean token that is not one of the whole-value words.
pub open spec fn plain_token(s: Seq<char>) -> bool {
    clean(s) && s != "all"@ && s != "none"@ && s != "default"@
}

proof fn lemma_split_join(ns: Seq<Seq<char>>)
    requires
        ns.len() >= 1,
        forall|k: int| 0 <= k < ns.len() ==> plain_token(#[trigger] ns[k]),
    ensures
        split_on(join_names(ns), ',') == ns,
        join_names(ns).len() > 0,
        join_names(ns)[0] == ns[0][0],
        join_names(ns).last() == ns.last().last(),
    decreases ns.len(),
{
    reveal_strlit(",");
    let a = ns[0];
    assert(clean(a));
    if ns.len() == 1 {
        lemma_run_until_clean(a, seq![]);
        assert(a.take(a.len() as int) == a);
    } else {
        let rest = ns.drop_first();
        assert forall|k: int| 0 <= k < rest.len() implies plain_token(#[trigger] rest[k]) by {
            assert(rest[k] == ns[k + 1]);
        }
        lemma_split_join(rest);
        let j = a + ","@ + join_names(rest);
        lemma_run_until_clean(a, join_names(rest));
        assert(j.take(a.len() as int) == a);
        assert(j.skip(a.len() + 1 as int) == join_names(rest));
        assert(seq![a] + rest == ns);
        assert(j[0] == a[0]);
        assert(j.last() == join_names(rest).last());
        assert(rest.last() == ns.last());
    }
}

proof fn lemma_bit_step(b: u16, i: u16)
    requires
        i < 9,
    ensures
        ((b >> i) & 1u16 == 1u16) ==> ((1u16 << i) | ((b >> (i + 1)) << (i + 1)) == (b >> i) << i),
        ((b >> i) & 1u16 != 1u16) ==> ((b >> (i + 1)) << (i + 1)) == (b >> i) << i,
{
    assert(((b >> i) & 1u16 == 1u16) ==> ((1u16 << i) | ((b >> (i + 1)) << (i + 1)) == (b >> i)
        << i)) by (bit_vector)
        requires
            i < 9,
    ;
    assert(((b >> i) & 1u16 != 1u16) ==> ((b >> (i + 1)) << (i + 1)) == (b >> i) << i)
        by (bit_vector)
        requires
            i < 9,
    ;
}

proof fn lemma_parse_selected(bits: u16, i: int, acc: u16)
    requires
        0 <= i <= 9,
        features_wf(bits),
    ensures
        parse_tokens(selected(bits, i), acc) == Ok::<u16, Seq<char>>(
            acc | (((bits >> (i as u16)) << (i as u16)) as u16),
        ),
    decreases 9 - i,
{
    if i == 9 {
        assert((bits >> 9u16) << 9u16 == 0u16 && acc | 0u16 == acc) by (bit_vector)
            requires
                bits <= 0x1ff,
        ;
    } else {
        let iu = i as u16;
        lemma_bit_step(bits, iu);
        if has_bit(bits, i) {
            lemma_token_clean(i);
            lemma_trim_clean(token_name(i));
            let s = selected(bits, i);
            assert(s[0] == token_name(i));
            assert(s.drop_first() == selected(bits, i + 1));
            lemma_parse_selected(bits, i + 1, acc | token_bit(i));
            let hi = (bits >> ((i + 1) as u16)) << ((i + 1) as u16);
            let lo = (bits >> iu) << iu;
            assert((1u16 << iu) | hi == lo);
            assert((acc | (1u16 << iu)) | hi == acc | ((1u16 << iu) | hi)) by (bit_vector);
        } else {
            lemma_parse_selected(bits, i + 1, acc);
        }
    }
}

/// The operator-readable list of a feature set parses back to that set:
/// a campaign manifest round-trips what it asked for.
pub proof fn lemma_features_csv_round_trips(bits: u16)
    requires
        features_wf(bits),
    ensures
        features_outcome(Some(csv_of(bits))) == Ok::<u16, FeaturesFailure>(bits),
{
    let ns = selected(bits, 0);
    lemma_parse_selected(bits, 0, 0);
    assert((bits >> 0u16) << 0u16 == bits && 0u16 | bits == bits) by (bit_vector);
    reveal_strlit("all");
    reveal_strlit("none");
    reveal_strlit("default");
    if ns.len() == 0 {
        assert(parse_tokens(ns, 0) == Ok::<u16, Seq<char>>(0u16));
        assert(clean("none"@));
        lemma_trim_clean("none"@);
    } else {
        lemma_selected_tokens(bits, 0);
        lemma_split_join(ns);
        let j = join_names(ns);
        assert(clean(ns[0]));
        assert(clean(ns.last()));
        assert(trim(j) == j) by {
            assert(!crate::text::is_ws(j[0]));
            assert(crate::text::trim_start(j) == j);
            assert(!crate::text::is_ws(j.last()));
        }
        if ns.len() == 1 {
            assert(j == ns[0]);
            assert(plain_token(ns[0]));
        } else {
            assert(j[ns[0].len() as int] == ',') by {
                reveal_strlit(",");
                assert(j == ns[0] + ","@ + join_names(ns.drop_first()));
            }
        }
        assert(j != "all"@ && j != "none"@ && j != "default"@);
    }
}

proof fn lemma_parse_tokens_ok_iff(toks: Seq<Seq<char>>, acc: u16)
    ensures
        parse_tokens(toks, acc) is Ok <==> forall|k: int|
            0 <= k < toks.len() ==> token_index(trim(#[trigger] toks[k])) is Some,
    decreases toks.len(),
{
    if toks.len() > 0 {
        let rest = toks.drop_first();
        match token_index(trim(toks[0])) {
            None => {},
            Some(j) => {
                lemma_parse_tokens_ok_iff(rest, acc | token_bit(j));
                if forall|k: int| 0 <= k < rest.len() ==> token_index(trim(#[trigger] rest[k])) is Some {
                    assert forall|k: int| 0 <= k < toks.len() implies token_index(
                        trim(#[trigger] toks[k]),
                    ) is Some by {
                        if k > 0 {
                            assert(toks[k] == rest[k - 1]);
                        }
                    }
                }
                if forall|k: int| 0 <= k < toks.len() ==> token_index(trim(#[trigger] toks[k])) is Some {
                    assert forall|k: int| 0 <= k < rest.len() implies token_index(
                        trim(#[trigger] rest[k]),
                    ) is Some by {
                        assert(rest[k] == toks[k + 1]);
                    }
                }
            },
        }
    }
}

/// A feature value is accepted exactly when, trimmed, it is one of the
/// whole-value words `all`, `none` or `default`, or it is not empty and every
/// comma-separated entry of it, trimmed, names a feature of the table.
pub proof fn lemma_features_accepted_iff(r: Seq<char>)
    ensures
        features_outcome(Some(r)) is Ok <==> ({
            let t = trim(r);
            ||| t == "all"@
            ||| t == "none"@
            ||| t == "default"@
            ||| (t.len() > 0 && forall|k: int|
                0 <= k < split_on(t, ',').len() ==> token_index(
                    trim(#[trigger] split_on(t, ',')[k]),
                ) is Some)
        }),
{
    lemma_parse_tokens_ok_iff(split_on(trim(r), ','), 0);
}

proof fn lemma_selected_shape(bits: u16, i: int)
    requires
        0 <= i <= 9,
    ensures
        forall|k: int|
            0 <= k < selected(bits, i).len() ==> {
                let e = #[trigger] selected(bits, i)[k];
                &&& token_index(e) is Some
                &&& i <= token_index(e).unwrap() < 9
                &&& has_bit(bits, token_index(e).unwrap())
                &&& e == token_name(token_index(e).unwrap())
            },
        forall|a: int, b: int|
            0 <= a < b < selected(bits, i).len() ==> token_index(
                #[trigger] selected(bits, i)[a],
            ).unwrap() < token_index(#[trigger] selected(bits, i)[b]).unwrap(),
        forall|j: int|
            i <= j < 9 && has_bit(bits, j) ==> selected(bits, i).contains(#[trigger] token_name(j)),
    decreases 9 - i,
{
    if i < 9 {
        lemma_selected_shape(bits, i + 1);
        let rest = selected(bits, i + 1);
        if has_bit(bits, i) {
            lemma_token_clean(i);
            let s = selected(bits, i);
            assert(s == seq![token_name(i)] + rest);
            assert(s[0] == token_name(i));
            assert forall|k: int| 0 < k < s.len() implies #[trigger] s[k] == rest[k - 1] by {}
            assert forall|k: int| 0 <= k < s.len() implies {
                let e = #[trigger] s[k];
                &&& token_index(e) is Some
                &&& i <= token_index(e).unwrap() < 9
                &&& has_bit(bits, token_index(e).unwrap())
                &&& e == token_name(token_index(e).unwrap())
            } by {
                if k > 0 {
                    assert(s[k] == rest[k - 1]);
                }
            }
            assert forall|a: int, b: int| 0 <= a < b < s.len() implies token_index(
                #[trigger] s[a],
            ).unwrap() < token_index(#[trigger] s[b]).unwrap() by {
                assert(s[b] == rest[b - 1]);
                if a > 0 {
                    assert(s[a] == rest[a - 1]);
                }
            }
            assert forall|j: int| i <= j < 9 && has_bit(bits, j) implies s.contains(
                #[trigger] token_name(j),
            ) by {
                if j == i {
                    assert(s[0] == token_name(j));
                } else {
                    let w = choose|w: int| 0 <= w < rest.len() && rest[w] == token_name(j);
                    assert(s[w + 1] == rest[w]);
                }
            }
        } else {
            assert(selected(bits, i) == rest);
        }
    }
}

/// The names of a feature set are its active bits' tokens, each once, in
/// table order; the empty set has no names, and the names of any other set,
/// joined with commas, parse back to exactly that set.
pub proof fn lemma_feature_names_round_trip(bits: u16)
    requires
        features_wf(bits),
    ensures
        forall|j: int|
            0 <= j < 9 ==> (has_bit(bits, j) <==> selected(bits, 0).contains(
                #[trigger] token_name(j),
            )),
        forall|a: int, b: int|
            0 <= a < b < selected(bits, 0).len() ==> token_index(
                #[trigger] selected(bits, 0)[a],
            ).unwrap() < token_index(#[trigger] selected(bits, 0)[b]).unwrap(),
        (bits == 0) <==> (selected(bits, 0).len() == 0),
        bits != 0 ==> features_outcome(Some(join_names(selected(bits, 0)))) == Ok::<
            u16,
            FeaturesFailure,
        >(bits),
{
    let ns = selected(bits, 0);
    lemma_selected_shape(bits, 0);
    assert forall|j: int| 0 <= j < 9 implies (has_bit(bits, j) <==> ns.contains(
        #[trigger] token_name(j),
    )) by {
        if ns.contains(token_name(j)) {
            let w = choose|w: int| 0 <= w < ns.len() && ns[w] == token_name(j);
            lemma_token_clean(j);
            assert(token_index(ns[w]) == Some(j));
        }
    }
    lemma_parse_selected(bits, 0, 0);
    assert((bits >> 0u16) << 0u16 == bits && 0u16 | bits == bits) by (bit_vector);
    if ns.len() == 0 {
        assert(parse_tokens(ns, 0) == Ok::<u16, Seq<char>>(0u16));
    }
    if bits == 0 {
        if ns.len() > 0 {
            let e = ns[0];
            let j = token_index(e).unwrap();
            let ju = j as u16;
            assert((0u16 >> ju) & 1u16 == 0u16) by (bit_vector);
        }
    }
    lemma_features_csv_round_trips(bits);
}

} // verus!
