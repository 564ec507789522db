//! What a device may emit: single capabilities as they flow through the
//! stream, and the capability set of a whole device.

use vstd::prelude::*;
use crate::event::{Domain, Event, EventCode, EventType, EventValue, Namespace, EV_ABS, EV_KEY};
use crate::range::Range;

verus! {

/// Limits and precision of an absolute axis.
#[derive(PartialEq, Eq, Structural, Clone, Copy, Debug)]
pub struct AbsInfo {
    pub min_value: EventValue,
    pub max_value: EventValue,
    pub fuzz: EventValue,
    pub flat: EventValue,
    pub resolution: EventValue,
}

/// Key-repeat timing of a device.
#[derive(PartialEq, Eq, Structural, Clone, Copy, Debug)]
pub struct RepeatInfo {
    pub delay: EventValue,
    pub period: EventValue,
}

/// A device may emit `(ev_type, code)` with a value in `value_range`, on
/// `domain` and in `namespace`.
#[derive(PartialEq, Eq, Structural, Clone, Copy, Debug)]
pub struct Capability {
    pub ev_type: EventType,
    pub code: EventCode,
    pub domain: Domain,
    pub namespace: Namespace,
    pub value_range: Range,
    pub abs_info: Option<AbsInfo>,
    pub rep_info: Option<RepeatInfo>,
}

impl Capability {
    /// Two capabilities have the same base when they differ in nothing but
    /// their value range.
    pub open spec fn same_base_spec(&self, other: &Capability) -> bool {
        &&& self.ev_type == other.ev_type
        &&& self.code == other.code
        &&& self.domain == other.domain
        &&& self.namespace == other.namespace
        &&& self.abs_info == other.abs_info
        &&& self.rep_info == other.rep_info
    }

    #[verifier::when_used_as_spec(same_base_spec)]
    pub fn same_base(&self, other: &Capability) -> (r: bool)
        ensures
            r == self.same_base_spec(other),
    {
        self.ev_type == other.ev_type && self.code == other.code && self.domain == other.domain
            && self.namespace == other.namespace && self.abs_info == other.abs_info
            && self.rep_info == other.rep_info
    }

    /// The same capability with another value range.
    pub open spec fn with_range_spec(&self, value_range: Range) -> Capability {
        Capability { value_range, ..*self }
    }

    #[verifier::when_used_as_spec(with_range_spec)]
    pub fn with_range(&self, value_range: Range) -> (r: Capability)
        ensures
            r == self.with_range_spec(value_range),
    {
        let mut cap = *self;
        cap.value_range = value_range;
        cap
    }

    /// Whether `event` is one of the events that this capability announces.
    pub open spec fn covers(&self, event: Event) -> bool {
        &&& self.ev_type == event.ev_type
        &&& self.code == event.code
        &&& self.domain == event.domain
        &&& self.namespace == event.namespace
        &&& self.value_range.contains_spec(event.value)
    }
}

/// The value range that a device's code is announced with: keys go from
/// released to repeating, absolute axes span their limits, and of the rest
/// nothing is known.
pub open spec fn natural_range(ev_type: EventType, abs_info: Option<AbsInfo>) -> Range {
    if ev_type == EV_KEY {
        Range { min: 0, max: 2 }
    } else if ev_type == EV_ABS && abs_info is Some {
        Range { min: abs_info->0.min_value, max: abs_info->0.max_value }
    } else {
        Range::full()
    }
}

/// One code that a device supports.
#[derive(PartialEq, Eq, Structural, Clone, Copy, Debug)]
pub struct CodeCapability {
    pub ev_type: EventType,
    pub code: EventCode,
    pub abs_info: Option<AbsInfo>,
}

/// An axis whose limits are `new` stays inside one whose limits are `old`.
pub open spec fn abs_within(new: Option<AbsInfo>, old: Option<AbsInfo>) -> bool {
    match new {
        None => true,
        Some(n) => match old {
            Some(o) => o.min_value <= n.min_value && n.max_value <= o.max_value,
            None => false,
        },
    }
}

/// Some code of `have` is the code `want`, with limits at least as wide.
pub open spec fn code_covered(have: Seq<CodeCapability>, want: CodeCapability) -> bool {
    exists|j: int|
        0 <= j < have.len() && (#[trigger] have[j]).ev_type == want.ev_type && have[j].code == want.code
            && abs_within(want.abs_info, have[j].abs_info)
}

fn abs_fits(new: &Option<AbsInfo>, old: &Option<AbsInfo>) -> (r: bool)
    ensures
        r == abs_within(*new, *old),
{
    match new {
        None => true,
        Some(n) => match old {
            Some(o) => o.min_value <= n.min_value && n.max_value <= o.max_value,
            None => false,
        },
    }
}

fn covers_code(have: &Vec<CodeCapability>, want: &CodeCapability) -> (r: bool)
    ensures
        r == code_covered(have@, *want),
{
    let mut j: usize = 0;
    while j < have.len()
        invariant
            j <= have.len(),
            forall|k: int|
                0 <= k < j ==> !((#[trigger] have@[k]).ev_type == want.ev_type && have@[k].code == want.code
                    && abs_within(want.abs_info, have@[k].abs_info)),
        decreases have.len() - j,
    {
        if have[j].ev_type == want.ev_type && have[j].code == want.code && abs_fits(
            &want.abs_info,
            &have[j].abs_info,
        ) {
            return true;
        }
        j += 1;
    }
    false
}

/// Every code of `new` is covered by `old`: no code is new and no axis has
/// wider limits.
pub open spec fn codes_compatible(new: Seq<CodeCapability>, old: Seq<CodeCapability>) -> bool {
    forall|i: int| 0 <= i < new.len() ==> code_covered(old, #[trigger] new[i])
}

/// The codes of `have`, then those of `more` that `have` does not cover.
pub open spec fn codes_union(have: Seq<CodeCapability>, more: Seq<CodeCapability>) -> Seq<CodeCapability> {
    have + more.filter(|c: CodeCapability| !code_covered(have, c))
}

/// Everything a device can emit.
#[derive(Debug)]
pub struct Capabilities {
    pub codes: Vec<CodeCapability>,
    pub rep_info: Option<RepeatInfo>,
}

impl Clone for Capabilities {
    fn clone(&self) -> (r: Capabilities)
        ensures
            r.codes@ == self.codes@,
            r.rep_info == self.rep_info,
    {
        Capabilities { codes: self.codes.clone(), rep_info: self.rep_info }
    }
}

impl Capabilities {
    /// A device with these capabilities can stand in for one with `other`:
    /// it has no code that `other` lacks and no axis with wider limits.
    pub open spec fn is_compatible_with_spec(&self, other: &Capabilities) -> bool {
        codes_compatible(self.codes@, other.codes@)
    }

    /// The codes of `self`, then those of `other` that `self` does not cover.
    pub open spec fn union_codes(&self, other: &Capabilities) -> Seq<CodeCapability> {
        codes_union(self.codes@, other.codes@)
    }

    pub open spec fn to_capability(
        code: CodeCapability,
        rep_info: Option<RepeatInfo>,
        domain: Domain,
        namespace: Namespace,
    ) -> Capability {
        Capability {
            ev_type: code.ev_type,
            code: code.code,
            domain,
            namespace,
            value_range: natural_range(code.ev_type, code.abs_info),
            abs_info: code.abs_info,
            rep_info,
        }
    }

    /// One capability per code, in order, all on `domain` and in `namespace`.
    pub open spec fn to_vec_spec(&self, domain: Domain, namespace: Namespace) -> Seq<Capability> {
        Seq::new(
            self.codes@.len(),
            |i: int| Capabilities::to_capability(self.codes@[i], self.rep_info, domain, namespace),
        )
    }

    /// The codes of `caps` that sit on `domain`, in order.
    pub open spec fn codes_on_domain(caps: Seq<Capability>, domain: Domain) -> Seq<CodeCapability> {
        caps.filter(|c: Capability| c.domain == domain).map_values(
            |c: Capability| CodeCapability { ev_type: c.ev_type, code: c.code, abs_info: c.abs_info },
        )
    }

    /// The key-repeat timing that `caps` announces on `domain`: that of the
    /// first capability there that carries one.
    pub open spec fn rep_info_on_domain(caps: Seq<Capability>, domain: Domain) -> Option<RepeatInfo> {
        let timed = caps.filter(|c: Capability| c.domain == domain && c.rep_info is Some);
        if timed.len() > 0 {
            timed[0].rep_info
        } else {
            None
        }
    }

    pub fn new() -> (caps: Capabilities)
        ensures
            caps.codes@ == Seq::<CodeCapability>::empty(),
            caps.rep_info is None,
    {
        Capabilities { codes: Vec::new(), rep_info: None }
    }

    pub fn is_compatible_with(&self, other: &Capabilities) -> (r: bool)
        ensures
            r == self.is_compatible_with_spec(other),
    {
        let mut i: usize = 0;
        while i < self.codes.len()
            invariant
                i <= self.codes.len(),
                forall|k: int| 0 <= k < i ==> code_covered(other.codes@, #[trigger] self.codes@[k]),
            decreases self.codes.len() - i,
        {
            if !covers_code(&other.codes, &self.codes[i]) {
                return false;
            }
            i += 1;
        }
        true
    }

    /// The capabilities of a device that can stand in for both.
    pub fn union(&self, other: &Capabilities) -> (r: Capabilities)
        ensures
            r.codes@ == self.union_codes(other),
            r.rep_info == if self.rep_info is Some { self.rep_info } else { other.rep_info },
            self.is_compatible_with_spec(&r),
            other.is_compatible_with_spec(&r),
    {
        let mut codes: Vec<CodeCapability> = self.codes.clone();
        let ghost missing = |c: CodeCapability| !code_covered(self.codes@, c);
        proof {
            crate::seq_util::lemma_filter_empty(missing);
            assert(other.codes@.take(0) =~= Seq::<CodeCapability>::empty());
        }
        let mut i: usize = 0;
        while i < other.codes.len()
            invariant
                i <= other.codes.len(),
                missing == (|c: CodeCapability| !code_covered(self.codes@, c)),
                codes@ == self.codes@ + other.codes@.take(i as int).filter(missing),
                forall|k: int| 0 <= k < i ==> code_covered(codes@, #[trigger] other.codes@[k]),
            decreases other.codes.len() - i,
        {
            let code = other.codes[i];
            let ghost before = codes@;
            proof {
                crate::seq_util::lemma_filter_take_step(other.codes@, missing, i as int);
            }
            if !covers_code(&self.codes, &code) {
                codes.push(code);
                proof {
                    assert(abs_within(code.abs_info, code.abs_info));
                    assert(codes@[codes@.len() - 1] == code);
                }
            } else {
                proof {
                    let j = choose|j: int|
                        0 <= j < self.codes@.len() && (#[trigger] self.codes@[j]).ev_type == code.ev_type
                            && self.codes@[j].code == code.code && abs_within(
                            code.abs_info,
                            self.codes@[j].abs_info,
                        );
                    assert(codes@[j] == self.codes@[j]);
                }
            }
            proof {
                assert forall|k: int| 0 <= k < i implies code_covered(codes@, #[trigger] other.codes@[k]) by {
                    let want = other.codes@[k];
                    assert(code_covered(before, want));
                    let j = choose|j: int|
                        0 <= j < before.len() && (#[trigger] before[j]).ev_type == want.ev_type
                            && before[j].code == want.code && abs_within(want.abs_info, before[j].abs_info);
                    assert(codes@[j] == before[j]);
                }
            }
            i += 1;
        }
        proof {
            assert(other.codes@.take(other.codes@.len() as int) =~= other.codes@);
            assert forall|k: int| 0 <= k < self.codes@.len() implies code_covered(
                codes@,
                #[trigger] self.codes@[k],
            ) by {
                let want = self.codes@[k];
                assert(abs_within(want.abs_info, want.abs_info));
                assert(codes@[k] == want);
            }
        }
        Capabilities { codes, rep_info: if self.rep_info.is_some() { self.rep_info } else { other.rep_info } }
    }

    /// The capabilities as they enter the stream.
    pub fn to_vec_from_domain_and_namespace(&self, domain: Domain, namespace: Namespace) -> (r: Vec<
        Capability,
    >)
        ensures
            r@ == self.to_vec_spec(domain, namespace),
    {
        let mut result: Vec<Capability> = Vec::new();
        let mut i: usize = 0;
        while i < self.codes.len()
            invariant
                i <= self.codes.len(),
                result@.len() == i,
                forall|k: int|
                    0 <= k < i ==> result@[k] == Capabilities::to_capability(
                        self.codes@[k],
                        self.rep_info,
                        domain,
                        namespace,
                    ),
            decreases self.codes.len() - i,
        {
            let code = self.codes[i];
            let value_range = if code.ev_type == EV_KEY {
                Range::new(0, 2)
            } else {
                match code.abs_info {
                    Some(info) => if code.ev_type == EV_ABS {
                        Range::new(info.min_value, info.max_value)
                    } else {
                        Range::everything()
                    },
                    None => Range::everything(),
                }
            };
            result.push(
                Capability {
                    ev_type: code.ev_type,
                    code: code.code,
                    domain,
                    namespace,
                    value_range,
                    abs_info: code.abs_info,
                    rep_info: self.rep_info,
                },
            );
            i += 1;
        }
        assert(result@ =~= self.to_vec_spec(domain, namespace));
        result
    }

    /// What a device on `domain` must support to emit what `caps` announces:
    /// the codes with their limits, and the key-repeat timing.
    pub fn from_caps(caps: &Vec<Capability>, domain: Domain) -> (r: Capabilities)
        ensures
            r.codes@ == Capabilities::codes_on_domain(caps@, domain),
            r.rep_info == Capabilities::rep_info_on_domain(caps@, domain),
    {
        let mut codes: Vec<CodeCapability> = Vec::new();
        let mut rep_info: Option<RepeatInfo> = None;
        let ghost on_domain = |c: Capability| c.domain == domain;
        let ghost timed = |c: Capability| c.domain == domain && c.rep_info is Some;
        let ghost to_code = |c: Capability|
            CodeCapability { ev_type: c.ev_type, code: c.code, abs_info: c.abs_info };
        proof {
            crate::seq_util::lemma_filter_empty(on_domain);
            crate::seq_util::lemma_filter_empty(timed);
            assert(caps@.take(0) =~= Seq::<Capability>::empty());
        }
        let mut i: usize = 0;
        while i < caps.len()
            invariant
                i <= caps.len(),
                on_domain == (|c: Capability| c.domain == domain),
                timed == (|c: Capability| c.domain == domain && c.rep_info is Some),
                to_code == (|c: Capability|
                    CodeCapability { ev_type: c.ev_type, code: c.code, abs_info: c.abs_info }),
                codes@ == caps@.take(i as int).filter(on_domain).map_values(to_code),
                rep_info == if caps@.take(i as int).filter(timed).len() > 0 {
                    caps@.take(i as int).filter(timed)[0].rep_info
                } else {
                    None
                },
            decreases caps.len() - i,
        {
            proof {
                crate::seq_util::lemma_filter_take_step(caps@, on_domain, i as int);
                crate::seq_util::lemma_filter_take_step(caps@, timed, i as int);
            }
            let cap = caps[i];
            if cap.domain == domain {
                codes.push(CodeCapability { ev_type: cap.ev_type, code: cap.code, abs_info: cap.abs_info });
                assert(codes@ =~= caps@.take(i + 1).filter(on_domain).map_values(to_code));
                if rep_info.is_none() {
                    rep_info = cap.rep_info;
                }
            }
            i += 1;
        }
        assert(caps@.take(caps@.len() as int) =~= caps@);
        Capabilities { codes, rep_info }
    }
}

/// A device may always take its own place.
pub proof fn lemma_compatible_with_itself(caps: Capabilities)
    ensures
        caps.is_compatible_with_spec(&caps),
{
    assert forall|i: int| 0 <= i < caps.codes@.len() implies code_covered(
        caps.codes@,
        #[trigger] caps.codes@[i],
    ) by {
        let want = caps.codes@[i];
        assert(abs_within(want.abs_info, want.abs_info));
    }
}

/// Some capability of `acc` has the base of `cap`.
pub open spec fn has_base(acc: Seq<Capability>, cap: Capability) -> bool {
    exists|k: int| 0 <= k < acc.len() && (#[trigger] acc[k]).same_base_spec(&cap)
}

pub open spec fn base_index(acc: Seq<Capability>, cap: Capability) -> int {
    choose|k: int| 0 <= k < acc.len() && (#[trigger] acc[k]).same_base_spec(&cap)
}

/// No two capabilities differ in their value range alone.
pub open spec fn distinct_bases(caps: Seq<Capability>) -> bool {
    forall|i: int, j: int|
        0 <= i < j < caps.len() ==> !(#[trigger] caps[i]).same_base_spec(#[trigger] &caps[j])
}

/// `acc` with `cap` taken in: the capability of the same base is widened to
/// hold the values of `cap` too, or `cap` is appended when its base is new.
pub open spec fn absorb(acc: Seq<Capability>, cap: Capability) -> Seq<Capability> {
    if has_base(acc, cap) {
        let k = base_index(acc, cap);
        acc.update(k, acc[k].with_range_spec(acc[k].value_range.hull_spec(&cap.value_range)))
    } else {
        acc.push(cap)
    }
}

/// One capability per base, in the order in which the bases first occur,
/// each with the smallest value range that holds every range of its base.
pub open spec fn aggregate(caps: Seq<Capability>) -> Seq<Capability>
    decreases caps.len(),
{
    if caps.len() == 0 {
        Seq::empty()
    } else {
        absorb(aggregate(caps.drop_last()), caps.last())
    }
}

/// `wide` announces every event that `cap` announces.
pub open spec fn widens(wide: Capability, cap: Capability) -> bool {
    wide.same_base_spec(&cap) && forall|v: EventValue|
        cap.value_range.contains_spec(v) ==> wide.value_range.contains_spec(v)
}

/// The capability of `out` that stands for `cap`.
pub open spec fn represented(out: Seq<Capability>, cap: Capability) -> bool {
    exists|k: int| 0 <= k < out.len() && widens(#[trigger] out[k], cap)
}

/// The bases of `out` are all bases of `caps`.
pub open spec fn bases_from(out: Seq<Capability>, caps: Seq<Capability>) -> bool {
    forall|k: int| 0 <= k < out.len() ==> has_base(caps, #[trigger] out[k])
}

/// Taking a capability in changes no base and keeps the bases apart.
proof fn lemma_absorb_keeps_distinct(acc: Seq<Capability>, cap: Capability)
    requires
        distinct_bases(acc),
    ensures
        distinct_bases(absorb(acc, cap)),
        acc.len() <= absorb(acc, cap).len() <= acc.len() + 1,
        forall|m: int| 0 <= m < acc.len() ==> (#[trigger] absorb(acc, cap)[m]).same_base_spec(&acc[m]),
        absorb(acc, cap).len() == acc.len() + 1 ==> absorb(acc, cap)[acc.len() as int] == cap && !has_base(
            acc,
            cap,
        ),
{
    let out = absorb(acc, cap);
    assert forall|i: int, j: int| 0 <= i < j < out.len() implies !(#[trigger] out[i]).same_base_spec(
        #[trigger] &out[j],
    ) by {
        if j < acc.len() {
            assert(out[i].same_base_spec(&acc[i]));
            assert(out[j].same_base_spec(&acc[j]));
            assert(!acc[i].same_base_spec(&acc[j]));
        } else {
            assert(out[i].same_base_spec(&acc[i]));
            assert(!acc[i].same_base_spec(&cap));
        }
    }
}

/// What was represented stays represented when a capability is taken in,
/// and that capability is represented too.
proof fn lemma_absorb_represents(acc: Seq<Capability>, cap: Capability, x: Capability)
    requires
        represented(acc, x) || x == cap,
    ensures
        represented(absorb(acc, cap), x),
{
    let out = absorb(acc, cap);
    if has_base(acc, cap) {
        let k = base_index(acc, cap);
        if represented(acc, x) {
            let m = choose|m: int| 0 <= m < acc.len() && widens(#[trigger] acc[m], x);
            assert(widens(out[m], x));
        } else {
            assert(widens(out[k], cap));
        }
    } else {
        if represented(acc, x) {
            let m = choose|m: int| 0 <= m < acc.len() && widens(#[trigger] acc[m], x);
            assert(out[m] == acc[m]);
            assert(widens(out[m], x));
        } else {
            assert(widens(out[acc.len() as int], cap));
        }
    }
}

/// Aggregating leaves one capability per base, loses no announced event and
/// invents no base.
pub proof fn lemma_aggregate(caps: Seq<Capability>)
    ensures
        distinct_bases(aggregate(caps)),
        aggregate(caps).len() <= caps.len(),
        forall|i: int| 0 <= i < caps.len() ==> represented(aggregate(caps), #[trigger] caps[i]),
        bases_from(aggregate(caps), caps),
    decreases caps.len(),
{
    if caps.len() > 0 {
        let front = caps.drop_last();
        let cap = caps.last();
        let acc = aggregate(front);
        let out = aggregate(caps);
        lemma_aggregate(front);
        lemma_absorb_keeps_distinct(acc, cap);
        assert forall|i: int| 0 <= i < caps.len() implies represented(out, #[trigger] caps[i]) by {
            if i < front.len() {
                assert(caps[i] == front[i]);
            }
            lemma_absorb_represents(acc, cap, caps[i]);
        }
        assert forall|m: int| 0 <= m < out.len() implies has_base(caps, #[trigger] out[m]) by {
            if m < acc.len() {
                assert(has_base(front, acc[m]));
                let i = choose|i: int| 0 <= i < front.len() && (#[trigger] front[i]).same_base_spec(&acc[m]);
                assert(caps[i] == front[i]);
                assert(out[m].same_base_spec(&acc[m]));
                assert(caps[i].same_base_spec(&out[m]));
            } else {
                assert(caps[caps.len() - 1].same_base_spec(&out[m]));
            }
        }
    }
}

/// Leaving capabilities out does not bring two of one base together.
pub proof fn lemma_filter_keeps_distinct_bases(caps: Seq<Capability>, pred: spec_fn(Capability) -> bool)
    requires
        distinct_bases(caps),
    ensures
        distinct_bases(caps.filter(pred)),
    decreases caps.len(),
{
    reveal(Seq::filter);
    if caps.len() > 0 {
        let front = caps.drop_last();
        let last = caps.last();
        assert forall|i: int, j: int| 0 <= i < j < front.len() implies !(#[trigger] front[i]).same_base_spec(
            #[trigger] &front[j],
        ) by {
            assert(front[i] == caps[i]);
            assert(front[j] == caps[j]);
        }
        lemma_filter_keeps_distinct_bases(front, pred);
        crate::seq_util::lemma_filter_members(front, pred);
        let kept = front.filter(pred);
        if pred(last) {
            let all = caps.filter(pred);
            assert(all == kept.push(last));
            assert forall|i: int, j: int| 0 <= i < j < all.len() implies !(#[trigger] all[i]).same_base_spec(
                #[trigger] &all[j],
            ) by {
                if j == kept.len() {
                    assert(front.contains(kept[i]));
                    let k = choose|k: int| 0 <= k < front.len() && front[k] == kept[i];
                    assert(caps[k] == kept[i]);
                    assert(caps[caps.len() - 1] == last);
                    assert(!caps[k].same_base_spec(&caps[caps.len() - 1]));
                }
            }
        }
    }
}

/// Merges the capabilities that differ in their value range alone. This
/// keeps a long stream from multiplying capabilities without bound.
pub fn aggregate_capabilities(capabilities: Vec<Capability>) -> (result: Vec<Capability>)
    ensures
        result@ == aggregate(capabilities@),
        distinct_bases(result@),
        result@.len() <= capabilities@.len(),
        forall|i: int| 0 <= i < capabilities@.len() ==> represented(result@, #[trigger] capabilities@[i]),
        bases_from(result@, capabilities@),
{
    let mut result: Vec<Capability> = Vec::new();
    let mut i: usize = 0;
    assert(capabilities@.take(0) =~= Seq::<Capability>::empty());
    while i < capabilities.len()
        invariant
            i <= capabilities.len(),
            result@ == aggregate(capabilities@.take(i as int)),
        decreases capabilities.len() - i,
    {
        let cap = capabilities[i];
        proof {
            assert(capabilities@.take(i + 1).drop_last() =~= capabilities@.take(i as int));
            assert(capabilities@.take(i + 1).last() == cap);
            lemma_aggregate(capabilities@.take(i as int));
        }
        let mut k: usize = 0;
        while k < result.len() && !result[k].same_base(&cap)
            invariant
                k <= result.len(),
                forall|m: int| 0 <= m < k ==> !(#[trigger] result@[m]).same_base_spec(&cap),
            decreases result.len() - k,
        {
            k += 1;
        }
        let found = k < result.len();
        if found {
            proof {
                let chosen = base_index(result@, cap);
                assert(result@[k as int].same_base_spec(&cap));
                if chosen != k {
                    assert(result@[chosen].same_base_spec(&result@[k as int]));
                }
            }
            let wide = result[k].with_range(result[k].value_range.hull(&cap.value_range));
            result.set(k, wide);
        } else {
            result.push(cap);
        }
        i += 1;
    }
    proof {
        assert(capabilities@.take(capabilities@.len() as int) =~= capabilities@);
        lemma_aggregate(capabilities@);
    }
    result
}

/// The capabilities of one input device, filed under its domain.
#[derive(Debug)]
pub struct DeviceCapabilities {
    pub domain: Domain,
    pub capabilities: Capabilities,
}

pub struct DeviceCapabilitiesView {
    pub domain: Domain,
    pub codes: Seq<CodeCapability>,
    pub rep_info: Option<RepeatInfo>,
}

impl View for DeviceCapabilities {
    type V = DeviceCapabilitiesView;

    open spec fn view(&self) -> DeviceCapabilitiesView {
        DeviceCapabilitiesView {
            domain: self.domain,
            codes: self.capabilities.codes@,
            rep_info: self.capabilities.rep_info,
        }
    }
}

/// The capabilities of every input device, by domain; no domain occurs twice.
#[derive(Debug)]
pub struct InputCapabilities {
    entries: Vec<DeviceCapabilities>,
}

impl View for InputCapabilities {
    type V = Seq<DeviceCapabilitiesView>;

    closed spec fn view(&self) -> Seq<DeviceCapabilitiesView> {
        self.entries@.map_values(|d: DeviceCapabilities| d@)
    }
}

/// The capabilities of one device as they enter the stream.
pub open spec fn device_input_caps(device: DeviceCapabilitiesView) -> Seq<Capability> {
    Seq::new(
        device.codes.len(),
        |i: int| Capabilities::to_capability(device.codes[i], device.rep_info, device.domain, Namespace::Input),
    )
}

/// The capabilities of all `entries` as they enter the stream, device after
/// device.
pub open spec fn all_input_caps(entries: Seq<DeviceCapabilitiesView>) -> Seq<Capability>
    decreases entries.len(),
{
    if entries.len() == 0 {
        Seq::empty()
    } else {
        all_input_caps(entries.drop_last()) + device_input_caps(entries.last())
    }
}

/// No domain is filed twice.
pub open spec fn distinct_device_domains(entries: Seq<DeviceCapabilitiesView>) -> bool {
    forall|i: int, j: int|
        0 <= i < j < entries.len() ==> (#[trigger] entries[i]).domain != (#[trigger] entries[j]).domain
}

/// Something is filed under `domain`.
pub open spec fn has_device_domain(entries: Seq<DeviceCapabilitiesView>, domain: Domain) -> bool {
    exists|i: int| 0 <= i < entries.len() && (#[trigger] entries[i]).domain == domain
}

/// Where the capabilities of `domain` are filed.
pub open spec fn device_index(entries: Seq<DeviceCapabilitiesView>, domain: Domain) -> int {
    choose|i: int| 0 <= i < entries.len() && (#[trigger] entries[i]).domain == domain
}

/// `entries` with `device` filed: in the place of what was filed under its
/// domain, or at the end when the domain is new.
pub open spec fn filed(entries: Seq<DeviceCapabilitiesView>, device: DeviceCapabilitiesView) -> Seq<
    DeviceCapabilitiesView,
> {
    if has_device_domain(entries, device.domain) {
        entries.update(device_index(entries, device.domain), device)
    } else {
        entries.push(device)
    }
}

/// Filing keeps the domains apart.
pub proof fn lemma_filed_distinct(entries: Seq<DeviceCapabilitiesView>, device: DeviceCapabilitiesView)
    requires
        distinct_device_domains(entries),
    ensures
        distinct_device_domains(filed(entries, device)),
{
    let after = filed(entries, device);
    if has_device_domain(entries, device.domain) {
        let at = device_index(entries, device.domain);
        assert forall|i: int, j: int| 0 <= i < j < after.len() implies (#[trigger] after[i]).domain != (
        #[trigger] after[j]).domain by {
            assert(after[i].domain == entries[i].domain);
            assert(after[j].domain == entries[j].domain);
        }
    } else {
        assert forall|i: int, j: int| 0 <= i < j < after.len() implies (#[trigger] after[i]).domain != (
        #[trigger] after[j]).domain by {
            if j == entries.len() {
                assert(entries[i].domain != device.domain);
            }
        }
    }
}

impl InputCapabilities {
    pub open spec fn wf(&self) -> bool {
        distinct_device_domains(self@)
    }

    pub fn new() -> (r: InputCapabilities)
        ensures
            r.wf(),
            r@ == Seq::<DeviceCapabilitiesView>::empty(),
    {
        let r = InputCapabilities { entries: Vec::new() };
        assert(r@ =~= Seq::<DeviceCapabilitiesView>::empty());
        r
    }

    /// Files `capabilities` under `domain` and hands back what was filed
    /// there before.
    pub fn insert(&mut self, domain: Domain, capabilities: Capabilities) -> (previous: Option<Capabilities>)
        requires
            old(self).wf(),
        ensures
            final(self).wf(),
            final(self)@ == filed(
                old(self)@,
                DeviceCapabilitiesView { domain, codes: capabilities.codes@, rep_info: capabilities.rep_info },
            ),
            previous is Some == has_device_domain(old(self)@, domain),
            previous matches Some(p) ==> p.codes@ == old(self)@[device_index(old(self)@, domain)].codes
                && p.rep_info == old(self)@[device_index(old(self)@, domain)].rep_info,
    {
        let ghost device = DeviceCapabilitiesView {
            domain,
            codes: capabilities.codes@,
            rep_info: capabilities.rep_info,
        };
        proof {
            lemma_filed_distinct(self@, device);
        }
        let mut i: usize = 0;
        while i < self.entries.len()
            invariant
                i <= self.entries.len(),
                *self == *old(self),
                old(self).wf(),
                forall|k: int| 0 <= k < i ==> (#[trigger] self@[k]).domain != domain,
            decreases self.entries.len() - i,
        {
            if self.entries[i].domain == domain {
                proof {
                    let chosen = device_index(old(self)@, domain);
                    assert(old(self)@[i as int].domain == domain);
                    assert(chosen == i);
                }
                let ghost new_entry = DeviceCapabilities { domain, capabilities };
                let entry = self.entries.remove(i);
                let previous = entry.capabilities;
                self.entries.insert(i, DeviceCapabilities { domain, capabilities });
                assert(self.entries@ =~= old(self).entries@.update(i as int, new_entry));
                assert(self@ =~= old(self)@.update(i as int, new_entry@));
                return Some(previous);
            }
            i += 1;
        }
        self.entries.push(DeviceCapabilities { domain, capabilities });
        assert(self@ =~= old(self)@.push(device));
        None
    }
}

/// Every capability that some input device has, as it enters the stream.
pub fn input_caps_to_vec(input_caps: &InputCapabilities) -> (r: Vec<Capability>)
    ensures
        r@ == all_input_caps(input_caps@),
{
    let mut result: Vec<Capability> = Vec::new();
    let mut i: usize = 0;
    assert(input_caps@.take(0) =~= Seq::<DeviceCapabilitiesView>::empty());
    while i < input_caps.entries.len()
        invariant
            i <= input_caps.entries.len(),
            result@ == all_input_caps(input_caps@.take(i as int)),
        decreases input_caps.entries.len() - i,
    {
        let entry = &input_caps.entries[i];
        let mut caps = entry.capabilities.to_vec_from_domain_and_namespace(entry.domain, Namespace::Input);
        proof {
            assert(input_caps@.take(i + 1).drop_last() =~= input_caps@.take(i as int));
            assert(input_caps@.take(i + 1).last() == input_caps@[i as int]);
            assert(caps@ =~= device_input_caps(input_caps@[i as int]));
        }
        result.append(&mut caps);
        i += 1;
    }
    assert(input_caps@.take(input_caps@.len() as int) =~= input_caps@);
    result
}

/// `event` is announced by one of `caps`.
pub open spec fn announces(caps: Seq<Capability>, event: Event) -> bool {
    exists|j: int| 0 <= j < caps.len() && (#[trigger] caps[j]).covers(event)
}

/// Each of `events` is announced by one of `caps`.
pub open spec fn announced(caps: Seq<Capability>, events: Seq<Event>) -> bool {
    forall|k: int| 0 <= k < events.len() ==> announces(caps, #[trigger] events[k])
}

/// What was announced before capabilities were merged is announced after.
pub proof fn lemma_aggregate_announces(caps: Seq<Capability>, events: Seq<Event>)
    requires
        announced(caps, events),
    ensures
        announced(aggregate(caps), events),
{
    lemma_aggregate(caps);
    let merged = aggregate(caps);
    assert forall|k: int| 0 <= k < events.len() implies announces(merged, #[trigger] events[k]) by {
        assert(announces(caps, events[k]));
        let i = choose|i: int| 0 <= i < caps.len() && (#[trigger] caps[i]).covers(events[k]);
        assert(represented(merged, caps[i]));
        let j = choose|j: int| 0 <= j < merged.len() && widens(#[trigger] merged[j], caps[i]);
        assert(merged[j].covers(events[k]));
    }
}

/// Capabilities with bases that are all apart, and all among the bases of
/// `caps`, are no more than `caps`.
pub proof fn lemma_distinct_bases_are_few(apart: Seq<Capability>, caps: Seq<Capability>)
    requires
        distinct_bases(apart),
        bases_from(apart, caps),
    ensures
        apart.len() <= caps.len(),
    decreases apart.len(),
{
    if apart.len() > 0 {
        let x = apart.last();
        let front = apart.drop_last();
        let others = |c: Capability| !c.same_base_spec(&x);
        let rest = caps.filter(others);
        assert(has_base(caps, apart[apart.len() - 1]));
        let at = choose|k: int| 0 <= k < caps.len() && (#[trigger] caps[k]).same_base_spec(&x);
        crate::seq_util::lemma_filter_drops(caps, others, at);
        assert forall|i: int, j: int| 0 <= i < j < front.len() implies !(#[trigger] front[i]).same_base_spec(
            #[trigger] &front[j],
        ) by {
            assert(front[i] == apart[i]);
            assert(front[j] == apart[j]);
        }
        assert forall|m: int| 0 <= m < front.len() implies has_base(rest, #[trigger] front[m]) by {
            assert(front[m] == apart[m]);
            assert(has_base(caps, apart[m]));
            let k = choose|k: int| 0 <= k < caps.len() && (#[trigger] caps[k]).same_base_spec(&apart[m]);
            assert(!apart[m].same_base_spec(&apart[apart.len() - 1]));
            assert(others(caps[k]));
            crate::seq_util::lemma_filter_keeps(caps, others, k);
            let j = choose|j: int| 0 <= j < rest.len() && rest[j] == caps[k];
            assert(rest[j].same_base_spec(&front[m]));
        }
        lemma_distinct_bases_are_few(front, rest);
    }
}

/// Bases that come from bases that come from `caps` come from `caps`.
pub proof fn lemma_bases_from_trans(a: Seq<Capability>, b: Seq<Capability>, caps: Seq<Capability>)
    requires
        bases_from(a, b),
        bases_from(b, caps),
    ensures
        bases_from(a, caps),
{
    assert forall|k: int| 0 <= k < a.len() implies has_base(caps, #[trigger] a[k]) by {
        assert(has_base(b, a[k]));
        let i = choose|i: int| 0 <= i < b.len() && (#[trigger] b[i]).same_base_spec(&a[k]);
        assert(has_base(caps, b[i]));
        let j = choose|j: int| 0 <= j < caps.len() && (#[trigger] caps[j]).same_base_spec(&b[i]);
        assert(caps[j].same_base_spec(&a[k]));
    }
}

pub proof fn lemma_bases_from_refl(caps: Seq<Capability>)
    ensures
        bases_from(caps, caps),
{
    assert forall|k: int| 0 <= k < caps.len() implies has_base(caps, #[trigger] caps[k]) by {
        assert(caps[k].same_base_spec(&caps[k]));
    }
}

} // verus!
