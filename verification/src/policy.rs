//! The policy engine: rule registration and evaluation.
//!
//! Three ordered rule collections are kept, one per rule kind. Incoming rules
//! gate admission of a package, layer rules pick the storage tier by first
//! match in registration order, and trigger rules gate the lifecycle points
//! of one tier.

use vstd::prelude::*;

use crate::package::Package;

verus! {

/// A lifecycle point around a storage operation at which trigger rules fire.
#[derive(Clone, Copy, Debug, PartialEq, Eq, Structural)]
pub enum PolicyTrigger {
    BeforeGet,
    AfterGet,
    BeforeSave,
    AfterSave,
    BeforeDelete,
    AfterDelete,
    BeforeFree,
}

/// Extra data of a trigger rule: the tier it applies to and the lifecycle
/// points it fires on.
pub struct TriggerPolicy {
    /// The layer this rule is scoped to.
    pub layer: String,
    /// The lifecycle points at which this rule is evaluated.
    pub get_validation_conditions: Vec<PolicyTrigger>,
}

/// Extra data of a layer rule: the tier chosen when the rule matches.
pub struct LayerPolicy {
    /// The layer key returned when this rule is the first match.
    pub success_layer_key: String,
}

/// An incoming rule carries no extra data; it is an admission gate.
pub struct IncomingPolicy {}

/// The kind of a policy rule, with the kind-specific data.
pub enum PolicyType {
    Trigger(TriggerPolicy),
    Layer(LayerPolicy),
    Incoming(IncomingPolicy),
}

/// The predicate bound to a rule: an inspectable strategy over a package and
/// the client id, rather than an opaque callback.
pub enum PolicyPredicate {
    /// Constant result, whatever the package.
    Always(bool),
    /// True iff the package size is at most the given limit.
    SizeAtMost(u64),
    /// True iff the package size is at least the given limit.
    SizeAtLeast(u64),
    /// True iff the client id equals the given one.
    ClientIs(String),
    /// True iff the package's compression algorithm equals the given name.
    CompressionIs(String),
}

impl PolicyPredicate {
    /// What this predicate decides for a package and a client id.
    pub open spec fn holds(self, package: Package, client: Seq<char>) -> bool {
        match self {
            PolicyPredicate::Always(b) => b,
            PolicyPredicate::SizeAtMost(limit) => package.size <= limit,
            PolicyPredicate::SizeAtLeast(limit) => package.size >= limit,
            PolicyPredicate::ClientIs(c) => c@ == client,
            PolicyPredicate::CompressionIs(a) => a@ == package.compression_algorithm@,
        }
    }

    /// Evaluate this predicate.
    pub fn evaluate(&self, package: &Package, client: &str) -> (r: bool)
        ensures
            r == self.holds(*package, client@),
    {
        match self {
            PolicyPredicate::Always(b) => *b,
            PolicyPredicate::SizeAtMost(limit) => package.size <= *limit,
            PolicyPredicate::SizeAtLeast(limit) => package.size >= *limit,
            PolicyPredicate::ClientIs(c) => *c == client.to_owned(),
            PolicyPredicate::CompressionIs(a) => *a == package.compression_algorithm,
        }
    }
}

/// What a value must offer to act as a policy rule.
pub trait Policy {
    /// The kind of this rule.
    spec fn spec_type(&self) -> PolicyType;

    /// What this rule decides for a package and a client id.
    spec fn spec_holds(&self, package: Package, client: Seq<char>) -> bool;

    /// The kind of this rule.
    fn get_type(&self) -> (t: &PolicyType)
        ensures
            *t == self.spec_type(),
    ;

    /// Evaluate this rule against a package and a client id.
    fn validate(&self, package: &Package, client: &str) -> (r: bool)
        ensures
            r == self.spec_holds(*package, client@),
    ;
}

/// A named rule: a kind and the predicate evaluated for it.
///
/// The name is an intended-unique identifier, but uniqueness is not enforced:
/// duplicates are all evaluated.
pub struct PolicyRule {
    /// Identifier used by `PolicyManager::remove`.
    pub name: String,
    /// The kind of this rule, with the kind-specific data.
    pub policy_type: PolicyType,
    /// The predicate evaluated for this rule.
    pub predicate: PolicyPredicate,
}

impl Policy for PolicyRule {
    open spec fn spec_type(&self) -> PolicyType {
        self.policy_type
    }

    open spec fn spec_holds(&self, package: Package, client: Seq<char>) -> bool {
        self.predicate.holds(package, client)
    }

    fn get_type(&self) -> (t: &PolicyType) {
        &self.policy_type
    }

    fn validate(&self, package: &Package, client: &str) -> (r: bool) {
        self.predicate.evaluate(package, client)
    }
}

/// Whether `rule`'s predicate accepts the package.
pub open spec fn rule_holds(rule: PolicyRule, package: Package, client: Seq<char>) -> bool {
    rule.predicate.holds(package, client)
}

/// Whether `rule` is an incoming rule.
pub open spec fn is_incoming(rule: PolicyRule) -> bool {
    rule.policy_type matches PolicyType::Incoming(_)
}

/// Whether `rule` is a layer rule.
pub open spec fn is_layer(rule: PolicyRule) -> bool {
    rule.policy_type matches PolicyType::Layer(_)
}

/// Whether `rule` is a trigger rule.
pub open spec fn is_trigger(rule: PolicyRule) -> bool {
    rule.policy_type matches PolicyType::Trigger(_)
}

/// The layer key a layer rule switches to on success; empty for other kinds.
pub open spec fn success_key_of(rule: PolicyRule) -> Seq<char> {
    match rule.policy_type {
        PolicyType::Layer(layer) => layer.success_layer_key@,
        _ => Seq::<char>::empty(),
    }
}

/// Whether `rule` is a layer rule whose predicate accepts the package: the
/// condition under which layer resolution stops at `rule`.
pub open spec fn layer_matches(rule: PolicyRule, package: Package, client: Seq<char>) -> bool {
    is_layer(rule) && rule_holds(rule, package, client)
}

/// Whether `rule` is a trigger rule scoped to `source_layer` that fires on
/// `trigger`. Only such rules influence trigger validation.
pub open spec fn trigger_applies(rule: PolicyRule, source_layer: Seq<char>, trigger: PolicyTrigger) -> bool {
    match rule.policy_type {
        PolicyType::Trigger(tp) => tp.layer@ == source_layer
            && tp.get_validation_conditions@.contains(trigger),
        _ => false,
    }
}

/// Whether some rule in `rules` carries `name`.
pub open spec fn has_named(rules: Seq<PolicyRule>, name: Seq<char>) -> bool {
    exists|i: int| 0 <= i < rules.len() && rules[i].name@ == name
}

/// Whether `post` is `pre` with exactly the first rule named `name` taken out.
pub open spec fn removed_first_named(pre: Seq<PolicyRule>, post: Seq<PolicyRule>, name: Seq<char>) -> bool {
    exists|i: int|
        #![auto]
        0 <= i < pre.len() && pre[i].name@ == name && (forall|j: int|
            0 <= j < i ==> pre[j].name@ != name) && post == pre.remove(i)
}

/// The policy manager: owns the three rule collections and evaluates
/// packages against them.
pub struct PolicyManager {
    incoming_policies: Vec<PolicyRule>,
    layer_policies: Vec<PolicyRule>,
    trigger_policies: Vec<PolicyRule>,
}

impl PolicyManager {
    /// The registered incoming rules, in registration order.
    pub closed spec fn incoming_rules(&self) -> Seq<PolicyRule> {
        self.incoming_policies@
    }

    /// The registered layer rules, in registration order.
    pub closed spec fn layer_rules(&self) -> Seq<PolicyRule> {
        self.layer_policies@
    }

    /// The registered trigger rules, in registration order.
    pub closed spec fn trigger_rules(&self) -> Seq<PolicyRule> {
        self.trigger_policies@
    }

    /// An empty manager: no rules of any kind.
    pub fn new() -> (manager: Self)
        ensures
            manager.incoming_rules() == Seq::<PolicyRule>::empty(),
            manager.layer_rules() == Seq::<PolicyRule>::empty(),
            manager.trigger_rules() == Seq::<PolicyRule>::empty(),
    {
        Self {
            incoming_policies: Vec::new(),
            layer_policies: Vec::new(),
            trigger_policies: Vec::new(),
        }
    }

    /// Active rule count for incoming package validation.
    pub fn incoming_policies_count(&self) -> (count: usize)
        ensures
            count == self.incoming_rules().len(),
    {
        self.incoming_policies.len()
    }

    /// Active rule count for layer resolution.
    pub fn layer_policies_count(&self) -> (count: usize)
        ensures
            count == self.layer_rules().len(),
    {
        self.layer_policies.len()
    }

    /// Active rule count for trigger validation.
    pub fn trigger_policies_count(&self) -> (count: usize)
        ensures
            count == self.trigger_rules().len(),
    {
        self.trigger_policies.len()
    }

    /// Total active rule count.
    pub fn policies_count(&self) -> (count: usize)
        requires
            self.incoming_rules().len() + self.layer_rules().len() + self.trigger_rules().len()
                <= usize::MAX,
        ensures
            count == self.incoming_rules().len() + self.layer_rules().len()
                + self.trigger_rules().len(),
    {
        self.incoming_policies_count() + self.layer_policies_count()
            + self.trigger_policies_count()
    }

    /// Register a rule: it is appended to the collection of its kind.
    ///
    /// No uniqueness check is made on the name; to replace a rule, call
    /// `remove` first.
    pub fn add(&mut self, policy: PolicyRule)
        ensures
            is_incoming(policy) ==> {
                &&& final(self).incoming_rules() == old(self).incoming_rules().push(policy)
                &&& final(self).layer_rules() == old(self).layer_rules()
                &&& final(self).trigger_rules() == old(self).trigger_rules()
            },
            is_layer(policy) ==> {
                &&& final(self).layer_rules() == old(self).layer_rules().push(policy)
                &&& final(self).incoming_rules() == old(self).incoming_rules()
                &&& final(self).trigger_rules() == old(self).trigger_rules()
            },
            is_trigger(policy) ==> {
                &&& final(self).trigger_rules() == old(self).trigger_rules().push(policy)
                &&& final(self).incoming_rules() == old(self).incoming_rules()
                &&& final(self).layer_rules() == old(self).layer_rules()
            },
    {
        match &policy.policy_type {
            PolicyType::Incoming(_incoming) => {
                self.incoming_policies.push(policy);
            },
            PolicyType::Layer(_layer) => {
                self.layer_policies.push(policy);
            },
            PolicyType::Trigger(_trigger) => {
                self.trigger_policies.push(policy);
            },
        }
    }

    /// Remove the first rule named `name`, scanning the incoming, layer and
    /// trigger collections in that fixed order. At most one rule is removed;
    /// an absent name is a no-op returning false.
    pub fn remove(&mut self, name: &str) -> (removed: bool)
        ensures
            removed == {
                ||| has_named(old(self).incoming_rules(), name@)
                ||| has_named(old(self).layer_rules(), name@)
                ||| has_named(old(self).trigger_rules(), name@)
            },
            has_named(old(self).incoming_rules(), name@) ==> {
                &&& removed_first_named(
                    old(self).incoming_rules(),
                    final(self).incoming_rules(),
                    name@,
                )
                &&& final(self).layer_rules() == old(self).layer_rules()
                &&& final(self).trigger_rules() == old(self).trigger_rules()
            },
            !has_named(old(self).incoming_rules(), name@) && has_named(
                old(self).layer_rules(),
                name@,
            ) ==> {
                &&& removed_first_named(old(self).layer_rules(), final(self).layer_rules(), name@)
                &&& final(self).incoming_rules() == old(self).incoming_rules()
                &&& final(self).trigger_rules() == old(self).trigger_rules()
            },
            !has_named(old(self).incoming_rules(), name@) && !has_named(
                old(self).layer_rules(),
                name@,
            ) && has_named(old(self).trigger_rules(), name@) ==> {
                &&& removed_first_named(
                    old(self).trigger_rules(),
                    final(self).trigger_rules(),
                    name@,
                )
                &&& final(self).incoming_rules() == old(self).incoming_rules()
                &&& final(self).layer_rules() == old(self).layer_rules()
            },
            !removed ==> {
                &&& final(self).incoming_rules() == old(self).incoming_rules()
                &&& final(self).layer_rules() == old(self).layer_rules()
                &&& final(self).trigger_rules() == old(self).trigger_rules()
            },
    {
        if remove_first_named(&mut self.incoming_policies, name) {
            return true;
        }
        if remove_first_named(&mut self.layer_policies, name) {
            return true;
        }
        if remove_first_named(&mut self.trigger_policies, name) {
            return true;
        }
        false
    }

    /// Drop every registered rule of every kind.
    pub fn clear(&mut self)
        ensures
            final(self).incoming_rules() == Seq::<PolicyRule>::empty(),
            final(self).layer_rules() == Seq::<PolicyRule>::empty(),
            final(self).trigger_rules() == Seq::<PolicyRule>::empty(),
    {
        self.incoming_policies.clear();
        self.layer_policies.clear();
        self.trigger_policies.clear();
    }

    /// Validate an incoming package: true iff every incoming rule's predicate
    /// accepts it, vacuously true with no incoming rules registered.
    pub fn validate_incoming(&self, package: &Package, client: &str) -> (valid: bool)
        ensures
            valid == (forall|i: int|
                0 <= i < self.incoming_rules().len() ==> rule_holds(
                    #[trigger] self.incoming_rules()[i],
                    *package,
                    client@,
                )),
    {
        let mut i: usize = 0;
        while i < self.incoming_policies.len()
            invariant
                i <= self.incoming_rules().len(),
                forall|j: int|
                    0 <= j < i ==> rule_holds(
                        #[trigger] self.incoming_rules()[j],
                        *package,
                        client@,
                    ),
            decreases self.incoming_rules().len() - i,
        {
            if !self.incoming_policies[i].validate(package, client) {
                return false;
            }
            i += 1;
        }
        true
    }

    /// Resolve the layer to use for a package: the `success_layer_key` of the
    /// first layer rule, in registration order, whose predicate accepts it.
    /// Err if no rule matches or none are registered.
    pub fn resolve_layer(&self, package: &Package, client: &str) -> (resolved: Result<String, ()>)
        ensures
            match resolved {
                Ok(key) => exists|i: int|
                    #![auto]
                    0 <= i < self.layer_rules().len() && layer_matches(
                        self.layer_rules()[i],
                        *package,
                        client@,
                    ) && (forall|j: int|
                        0 <= j < i ==> !layer_matches(self.layer_rules()[j], *package, client@))
                        && key@ == success_key_of(self.layer_rules()[i]),
                Err(()) => forall|i: int|
                    0 <= i < self.layer_rules().len() ==> !layer_matches(
                        #[trigger] self.layer_rules()[i],
                        *package,
                        client@,
                    ),
            },
    {
        let mut i: usize = 0;
        while i < self.layer_policies.len()
            invariant
                i <= self.layer_rules().len(),
                forall|j: int|
                    0 <= j < i ==> !layer_matches(
                        #[trigger] self.layer_rules()[j],
                        *package,
                        client@,
                    ),
            decreases self.layer_rules().len() - i,
        {
            // on a successful validation we switch to the provided layer
            if self.layer_policies[i].validate(package, client) {
                match &self.layer_policies[i].policy_type {
                    PolicyType::Layer(layer) => {
                        return Ok(layer.success_layer_key.clone());
                    },
                    _ => {},
                }
            }
            i += 1;
        }
        Err(())
    }

    /// Validate a lifecycle point of one layer: true iff every trigger rule
    /// scoped to `source_layer` that fires on `trigger` accepts the package.
    /// Rules for other layers or other points never influence the result.
    pub fn validate_trigger(
        &self,
        source_layer: &str,
        trigger: &PolicyTrigger,
        package: &Package,
        client: &str,
    ) -> (valid: bool)
        ensures
            valid == (forall|i: int|
                0 <= i < self.trigger_rules().len() ==> (trigger_applies(
                    #[trigger] self.trigger_rules()[i],
                    source_layer@,
                    *trigger,
                ) ==> rule_holds(self.trigger_rules()[i], *package, client@))),
    {
        let mut i: usize = 0;
        while i < self.trigger_policies.len()
            invariant
                i <= self.trigger_rules().len(),
                forall|j: int|
                    0 <= j < i ==> (trigger_applies(
                        #[trigger] self.trigger_rules()[j],
                        source_layer@,
                        *trigger,
                    ) ==> rule_holds(self.trigger_rules()[j], *package, client@)),
            decreases self.trigger_rules().len() - i,
        {
            let applies = match &self.trigger_policies[i].policy_type {
                PolicyType::Trigger(tp) => {
                    if conditions_contain(&tp.get_validation_conditions, trigger) {
                        tp.layer == source_layer.to_owned()
                    } else {
                        false
                    }
                },
                _ => false,
            };
            if applies {
                // every trigger rule filtered by layer and lifecycle point
                if !self.trigger_policies[i].validate(package, client) {
                    return false;
                }
            }
            i += 1;
        }
        true
    }
}

/// Whether the lifecycle points of one trigger rule contain `trigger`.
fn conditions_contain(conditions: &Vec<PolicyTrigger>, trigger: &PolicyTrigger) -> (found: bool)
    ensures
        found == conditions@.contains(*trigger),
{
    let mut i: usize = 0;
    while i < conditions.len()
        invariant
            i <= conditions@.len(),
            forall|j: int| 0 <= j < i ==> conditions@[j] != *trigger,
        decreases conditions@.len() - i,
    {
        if conditions[i] == *trigger {
            return true;
        }
        i += 1;
    }
    false
}

/// Take out the first rule named `name`, if any.
fn remove_first_named(rules: &mut Vec<PolicyRule>, name: &str) -> (removed: bool)
    ensures
        removed == has_named(old(rules)@, name@),
        !removed ==> final(rules)@ == old(rules)@,
        removed ==> removed_first_named(old(rules)@, final(rules)@, name@),
{
    let name_string: String = name.to_owned();
    let mut i: usize = 0;
    while i < rules.len()
        invariant
            i <= rules@.len(),
            rules@ == old(rules)@,
            name_string@ == name@,
            forall|j: int| 0 <= j < i ==> old(rules)@[j].name@ != name@,
        decreases rules@.len() - i,
    {
        if rules[i].name == name_string {
            rules.remove(i);
            return true;
        }
        i += 1;
    }
    false
}

} // verus!
