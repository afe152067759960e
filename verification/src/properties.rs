//! Transport properties and the selection of protocol stacks by them.

use vstd::prelude::*;

verus! {

/// A characteristic of a transport that an application can ask for.
#[derive(Clone, Copy, Debug, PartialEq, Eq, Structural)]
pub enum Property {
    Reliability,
    PreserveOrder,
    Multipath,
    CongestionControl,
}

/// How strongly a property is wanted or unwanted.
#[derive(Clone, Copy, Debug, PartialEq, Eq, Structural)]
pub enum Preference {
    Required,
    Preferred,
    Avoided,
    Prohibited,
}

/// The protocols a candidate stack can be built on.
#[derive(Clone, Copy, Debug, PartialEq, Eq, Structural)]
pub enum StackId {
    Tcp,
    MultipathTcp,
    Quic,
    Udp,
}

/// A mapping from property to preference. A property without an entry is one
/// the application does not care about.
#[derive(Clone, Copy, Debug, PartialEq, Eq, Structural)]
pub struct TransportProperties {
    pub reliability: Option<Preference>,
    pub preserve_order: Option<Preference>,
    pub multipath: Option<Preference>,
    pub congestion_control: Option<Preference>,
}

/// What one protocol stack offers.
#[derive(Clone, Copy, Debug, PartialEq, Eq, Structural)]
pub struct ProtocolStackCapability {
    pub stack: StackId,
    pub reliability: bool,
    pub preserve_order: bool,
    pub multipath: bool,
    pub congestion_control: bool,
}

/// A stack that survived selection, with the position it was registered at
/// and the number of preferred properties it satisfies.
#[derive(Clone, Copy, Debug, PartialEq, Eq, Structural)]
pub struct CandidateStack {
    pub stack: ProtocolStackCapability,
    pub index: usize,
    pub score: usize,
}

impl TransportProperties {
    /// The preference recorded for `property`, if any.
    pub open spec fn preference(self, property: Property) -> Option<Preference> {
        match property {
            Property::Reliability => self.reliability,
            Property::PreserveOrder => self.preserve_order,
            Property::Multipath => self.multipath,
            Property::CongestionControl => self.congestion_control,
        }
    }

    /// `property` is prohibited.
    pub open spec fn prohibits(self, property: Property) -> bool {
        self.preference(property) == Some(Preference::Prohibited)
    }

    /// `property` is preferred.
    pub open spec fn prefers(self, property: Property) -> bool {
        self.preference(property) == Some(Preference::Preferred)
    }

    /// No prohibited property is offered by `stack`.
    pub open spec fn admits(self, stack: ProtocolStackCapability) -> bool {
        forall|property: Property| self.prohibits(property) ==> !#[trigger] stack.provides(property)
    }

    /// The number of preferred properties that `stack` offers.
    pub open spec fn score(self, stack: ProtocolStackCapability) -> nat {
        self.scores(stack, Property::Reliability) + self.scores(stack, Property::PreserveOrder)
            + self.scores(stack, Property::Multipath) + self.scores(
            stack,
            Property::CongestionControl,
        )
    }

    /// 1 if `property` is preferred and offered by `stack`, else 0.
    pub open spec fn scores(self, stack: ProtocolStackCapability, property: Property) -> nat {
        if self.prefers(property) && stack.provides(property) {
            1
        } else {
            0
        }
    }

    /// The empty mapping.
    pub fn new() -> (properties: TransportProperties)
        ensures
            forall|property: Property| properties.preference(property).is_none(),
    {
        TransportProperties {
            reliability: None,
            preserve_order: None,
            multipath: None,
            congestion_control: None,
        }
    }

    /// Looks up the preference for `property`.
    pub fn get(&self, property: Property) -> (preference: Option<Preference>)
        ensures
            preference == self.preference(property),
    {
        match property {
            Property::Reliability => self.reliability,
            Property::PreserveOrder => self.preserve_order,
            Property::Multipath => self.multipath,
            Property::CongestionControl => self.congestion_control,
        }
    }
}

impl ProtocolStackCapability {
    /// The stack offers `property`.
    pub open spec fn provides(self, property: Property) -> bool {
        match property {
            Property::Reliability => self.reliability,
            Property::PreserveOrder => self.preserve_order,
            Property::Multipath => self.multipath,
            Property::CongestionControl => self.congestion_control,
        }
    }

    /// Tells whether the stack offers `property`.
    pub fn offers(&self, property: Property) -> (offered: bool)
        ensures
            offered == self.provides(property),
    {
        match property {
            Property::Reliability => self.reliability,
            Property::PreserveOrder => self.preserve_order,
            Property::Multipath => self.multipath,
            Property::CongestionControl => self.congestion_control,
        }
    }
}

impl ProtocolStackCapability {
    /// What the named protocol offers.
    pub open spec fn known(stack: StackId) -> ProtocolStackCapability {
        match stack {
            StackId::Tcp => ProtocolStackCapability {
                stack,
                reliability: true,
                preserve_order: true,
                multipath: false,
                congestion_control: true,
            },
            StackId::MultipathTcp => ProtocolStackCapability {
                stack,
                reliability: true,
                preserve_order: true,
                multipath: true,
                congestion_control: true,
            },
            StackId::Quic => ProtocolStackCapability {
                stack,
                reliability: true,
                preserve_order: true,
                multipath: false,
                congestion_control: true,
            },
            StackId::Udp => ProtocolStackCapability {
                stack,
                reliability: false,
                preserve_order: false,
                multipath: false,
                congestion_control: false,
            },
        }
    }

    /// The capability of the named protocol.
    pub fn of(stack: StackId) -> (capability: ProtocolStackCapability)
        ensures
            capability == ProtocolStackCapability::known(stack),
    {
        match stack {
            StackId::Tcp => ProtocolStackCapability {
                stack,
                reliability: true,
                preserve_order: true,
                multipath: false,
                congestion_control: true,
            },
            StackId::MultipathTcp => ProtocolStackCapability {
                stack,
                reliability: true,
                preserve_order: true,
                multipath: true,
                congestion_control: true,
            },
            StackId::Quic => ProtocolStackCapability {
                stack,
                reliability: true,
                preserve_order: true,
                multipath: false,
                congestion_control: true,
            },
            StackId::Udp => ProtocolStackCapability {
                stack,
                reliability: false,
                preserve_order: false,
                multipath: false,
                congestion_control: false,
            },
        }
    }

    /// The protocols that are registered from the start, in their order:
    /// TCP, multipath TCP, QUIC, UDP.
    pub fn registry() -> (stacks: Vec<ProtocolStackCapability>)
        ensures
            stacks@ == seq![
                ProtocolStackCapability::known(StackId::Tcp),
                ProtocolStackCapability::known(StackId::MultipathTcp),
                ProtocolStackCapability::known(StackId::Quic),
                ProtocolStackCapability::known(StackId::Udp),
            ],
    {
        let mut stacks: Vec<ProtocolStackCapability> = Vec::new();
        stacks.push(ProtocolStackCapability::of(StackId::Tcp));
        stacks.push(ProtocolStackCapability::of(StackId::MultipathTcp));
        stacks.push(ProtocolStackCapability::of(StackId::Quic));
        stacks.push(ProtocolStackCapability::of(StackId::Udp));
        assert(stacks@ =~= seq![
            ProtocolStackCapability::known(StackId::Tcp),
            ProtocolStackCapability::known(StackId::MultipathTcp),
            ProtocolStackCapability::known(StackId::Quic),
            ProtocolStackCapability::known(StackId::Udp),
        ]);
        stacks
    }
}

impl CandidateStack {
    /// `self` comes before `other` in a ranking: a higher score first, and
    /// among equal scores the stack registered earlier.
    pub open spec fn precedes(self, other: CandidateStack) -> bool {
        self.score > other.score || (self.score == other.score && self.index < other.index)
    }

    /// `self` is the entry that a ranking by `properties` holds for the
    /// stack registered at `self.index` in `stacks`.
    pub open spec fn stands_for(
        self,
        properties: TransportProperties,
        stacks: Seq<ProtocolStackCapability>,
    ) -> bool {
        &&& self.index < stacks.len()
        &&& self.stack == stacks[self.index as int]
        &&& properties.admits(self.stack)
        &&& self.score == properties.score(self.stack)
    }
}

/// `ranked` is the ranking of `stacks` by `properties`: exactly the admitted
/// stacks, each once, ordered by `CandidateStack::precedes`.
pub open spec fn is_ranking(
    properties: TransportProperties,
    stacks: Seq<ProtocolStackCapability>,
    ranked: Seq<CandidateStack>,
) -> bool {
    &&& forall|i: int| 0 <= i < ranked.len() ==> (#[trigger] ranked[i]).stands_for(properties, stacks)
    &&& forall|i: int, j: int|
        0 <= i < j < ranked.len() ==> (#[trigger] ranked[i]).precedes(#[trigger] ranked[j])
    &&& forall|k: int|
        0 <= k < stacks.len() && properties.admits(#[trigger] stacks[k]) ==> exists|i: int|
            0 <= i < ranked.len() && (#[trigger] ranked[i]).index == k
}

/// `s` is in ranking order throughout.
pub open spec fn ordered(s: Seq<CandidateStack>) -> bool {
    forall|i: int, j: int| 0 <= i < j < s.len() ==> (#[trigger] s[i]).precedes(#[trigger] s[j])
}

/// Two sequences in ranking order that hold the same entries are equal.
pub proof fn lemma_ordered_unique(a: Seq<CandidateStack>, b: Seq<CandidateStack>)
    requires
        ordered(a),
        ordered(b),
        forall|x: CandidateStack| a.contains(x) <==> b.contains(x),
    ensures
        a == b,
    decreases a.len(),
{
    if a.len() == 0 {
        if b.len() > 0 {
            assert(b.contains(b[0]));
            assert(a.contains(b[0]));
        }
        assert(a =~= b);
    } else {
        assert(a.contains(a[0]));
        assert(b.contains(a[0]));
        let j = choose|j: int| 0 <= j < b.len() && b[j] == a[0];
        assert(b.contains(b[0]));
        assert(a.contains(b[0]));
        let i = choose|i: int| 0 <= i < a.len() && a[i] == b[0];
        if i > 0 && j > 0 {
            assert(a[0].precedes(a[i]));
            assert(b[0].precedes(b[j]));
        }
        assert(a[0] == b[0]);
        let rest_a = a.skip(1);
        let rest_b = b.skip(1);
        assert forall|x: CandidateStack| rest_a.contains(x) <==> rest_b.contains(x) by {
            if rest_a.contains(x) {
                let n = choose|n: int| 0 <= n < rest_a.len() && rest_a[n] == x;
                assert(a[n + 1] == x);
                assert(a[0].precedes(a[n + 1]));
                assert(a.contains(x));
                let m = choose|m: int| 0 <= m < b.len() && b[m] == x;
                assert(m != 0);
                assert(rest_b[m - 1] == x);
            }
            if rest_b.contains(x) {
                let n = choose|n: int| 0 <= n < rest_b.len() && rest_b[n] == x;
                assert(b[n + 1] == x);
                assert(b[0].precedes(b[n + 1]));
                assert(b.contains(x));
                let m = choose|m: int| 0 <= m < a.len() && a[m] == x;
                assert(m != 0);
                assert(rest_a[m - 1] == x);
            }
        }
        assert(ordered(rest_a)) by {
            assert forall|p: int, q: int| 0 <= p < q < rest_a.len() implies (#[trigger] rest_a[p]).precedes(
                #[trigger] rest_a[q],
            ) by {
                assert(a[p + 1].precedes(a[q + 1]));
            }
        }
        assert(ordered(rest_b)) by {
            assert forall|p: int, q: int| 0 <= p < q < rest_b.len() implies (#[trigger] rest_b[p]).precedes(
                #[trigger] rest_b[q],
            ) by {
                assert(b[p + 1].precedes(b[q + 1]));
            }
        }
        lemma_ordered_unique(rest_a, rest_b);
        assert(a =~= seq![a[0]] + rest_a);
        assert(b =~= seq![b[0]] + rest_b);
    }
}

/// There is only one ranking of given stacks by given properties.
pub proof fn lemma_ranking_unique(
    properties: TransportProperties,
    stacks: Seq<ProtocolStackCapability>,
    first: Seq<CandidateStack>,
    second: Seq<CandidateStack>,
)
    requires
        is_ranking(properties, stacks, first),
        is_ranking(properties, stacks, second),
    ensures
        first == second,
{
    assert forall|x: CandidateStack| first.contains(x) <==> second.contains(x) by {
        if first.contains(x) {
            let n = choose|n: int| 0 <= n < first.len() && first[n] == x;
            assert(first[n].stands_for(properties, stacks));
            assert(properties.admits(stacks[x.index as int]));
            let m = choose|m: int| 0 <= m < second.len() && (#[trigger] second[m]).index == x.index as int;
            assert(second[m].stands_for(properties, stacks));
            assert(second[m] == x);
        }
        if second.contains(x) {
            let n = choose|n: int| 0 <= n < second.len() && second[n] == x;
            assert(second[n].stands_for(properties, stacks));
            assert(properties.admits(stacks[x.index as int]));
            let m = choose|m: int| 0 <= m < first.len() && (#[trigger] first[m]).index == x.index as int;
            assert(first[m].stands_for(properties, stacks));
            assert(first[m] == x);
        }
    }
    lemma_ordered_unique(first, second);
}

impl TransportProperties {
    /// Sets the preference for `property`, replacing an earlier one.
    pub fn set(&mut self, property: Property, preference: Preference)
        ensures
            final(self).preference(property) == Some(preference),
            forall|other: Property|
                other != property ==> final(self).preference(other) == old(self).preference(other),
    {
        match property {
            Property::Reliability => {
                self.reliability = Some(preference);
            },
            Property::PreserveOrder => {
                self.preserve_order = Some(preference);
            },
            Property::Multipath => {
                self.multipath = Some(preference);
            },
            Property::CongestionControl => {
                self.congestion_control = Some(preference);
            },
        }
    }

    /// Tells whether `stack` offers none of the prohibited properties.
    pub fn is_admitted(&self, stack: &ProtocolStackCapability) -> (admitted: bool)
        ensures
            admitted == self.admits(*stack),
    {
        let clear = !self.is_violated(stack, Property::Reliability) && !self.is_violated(
            stack,
            Property::PreserveOrder,
        ) && !self.is_violated(stack, Property::Multipath) && !self.is_violated(
            stack,
            Property::CongestionControl,
        );
        proof {
            if clear {
                assert forall|property: Property| self.prohibits(property) implies !#[trigger] stack.provides(
                    property,
                ) by {
                    match property {
                        Property::Reliability => {},
                        Property::PreserveOrder => {},
                        Property::Multipath => {},
                        Property::CongestionControl => {},
                    }
                }
            }
        }
        clear
    }

    /// Tells whether `property` is prohibited and `stack` offers it all the same.
    fn is_violated(&self, stack: &ProtocolStackCapability, property: Property) -> (violated: bool)
        ensures
            violated == (self.prohibits(property) && stack.provides(property)),
    {
        match self.get(property) {
            Some(Preference::Prohibited) => stack.offers(property),
            _ => false,
        }
    }

    /// Tells whether `property` is preferred and `stack` offers it.
    fn is_satisfied(&self, stack: &ProtocolStackCapability, property: Property) -> (points: usize)
        ensures
            points == self.scores(*stack, property),
    {
        match self.get(property) {
            Some(Preference::Preferred) => if stack.offers(property) {
                1
            } else {
                0
            },
            _ => 0,
        }
    }

    /// Counts the preferred properties that `stack` offers.
    pub fn preferred_score(&self, stack: &ProtocolStackCapability) -> (score: usize)
        ensures
            score == self.score(*stack),
    {
        self.is_satisfied(stack, Property::Reliability) + self.is_satisfied(
            stack,
            Property::PreserveOrder,
        ) + self.is_satisfied(stack, Property::Multipath) + self.is_satisfied(
            stack,
            Property::CongestionControl,
        )
    }
}

impl Default for TransportProperties {
    /// The empty mapping: nothing is asked for, so every stack is admitted.
    fn default() -> (properties: TransportProperties)
        ensures
            forall|property: Property| properties.preference(property).is_none(),
    {
        TransportProperties::new()
    }
}

/// Selects and orders the stacks to race.
///
/// Stacks that offer a prohibited property are dropped. The others are
/// ordered by the number of preferred properties they offer, most first;
/// stacks with equal counts keep the order they were registered in.
pub fn rank(properties: &TransportProperties, stacks: &[ProtocolStackCapability]) -> (ranked: Vec<
    CandidateStack,
>)
    ensures
        is_ranking(*properties, stacks@, ranked@),
        forall|i: int| 0 <= i < ranked.len() ==> properties.admits((#[trigger] ranked[i]).stack),
        ranked.len() <= stacks.len(),
{
    let mut ranked: Vec<CandidateStack> = Vec::new();
    let mut k: usize = 0;
    while k < stacks.len()
        invariant
            k <= stacks.len(),
            ranked.len() <= k,
            is_ranking(*properties, stacks@.take(k as int), ranked@),
        decreases stacks.len() - k,
    {
        let stack = stacks[k];
        let ghost before = ranked@;
        if properties.is_admitted(&stack) {
            let score = properties.preferred_score(&stack);
            let mut at: usize = 0;
            while at < ranked.len() && ranked[at].score >= score
                invariant
                    at <= ranked.len(),
                    forall|i: int| 0 <= i < at ==> (#[trigger] ranked[i]).score >= score,
                decreases ranked.len() - at,
            {
                at += 1;
            }
            let entry = CandidateStack { stack, index: k, score };
            ranked.insert(at, entry);
            proof {
                let taken = stacks@.take(k as int);
                let grown = stacks@.take(k as int + 1);
                assert forall|i: int| 0 <= i < ranked.len() implies (#[trigger] ranked[i]).stands_for(
                    *properties,
                    grown,
                ) by {
                    if i < at {
                        assert(ranked[i] == before[i]);
                        assert(before[i].stands_for(*properties, taken));
                    } else if i > at {
                        assert(ranked[i] == before[i - 1]);
                        assert(before[i - 1].stands_for(*properties, taken));
                    }
                }
                assert forall|i: int, j: int| 0 <= i < j < ranked.len() implies (#[trigger] ranked[i]).precedes(
                    #[trigger] ranked[j],
                ) by {
                    let a = if i < at { i } else { i - 1 };
                    let b = if j < at { j } else { j - 1 };
                    if i != at && j != at {
                        assert(before[a].precedes(before[b]));
                    } else if i == at {
                        assert(before[b].stands_for(*properties, taken));
                        if b > at as int {
                            assert(before[at as int].precedes(before[b]));
                        }
                    } else {
                        assert(before[a].stands_for(*properties, taken));
                    }
                }
                assert forall|n: int| 0 <= n < grown.len() && properties.admits(#[trigger] grown[n]) implies exists|
                    i: int,
                | 0 <= i < ranked.len() && (#[trigger] ranked[i]).index == n by {
                    if n == k {
                        assert(ranked[at as int].index == n);
                    } else {
                        assert(taken[n] == grown[n]);
                        let i = choose|i: int| 0 <= i < before.len() && (#[trigger] before[i]).index == n;
                        let moved = if i < at { i } else { i + 1 };
                        assert(ranked[moved] == before[i]);
                    }
                }
            }
        } else {
            proof {
                let taken = stacks@.take(k as int);
                let grown = stacks@.take(k as int + 1);
                assert forall|i: int| 0 <= i < ranked.len() implies (#[trigger] ranked[i]).stands_for(
                    *properties,
                    grown,
                ) by {
                    assert(ranked[i].stands_for(*properties, taken));
                }
                assert forall|n: int| 0 <= n < grown.len() && properties.admits(#[trigger] grown[n]) implies exists|
                    i: int,
                | 0 <= i < ranked.len() && (#[trigger] ranked[i]).index == n by {
                    assert(n != k);
                    assert(taken[n] == grown[n]);
                }
            }
        }
        k += 1;
    }
    proof {
        assert(stacks@.take(k as int) =~= stacks@);
    }
    ranked
}

} // verus!
