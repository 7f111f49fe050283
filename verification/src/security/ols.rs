//! Object-level security: what a user has to hold to get at an object, and which of
//! its properties the user may see.

use vstd::prelude::*;
use vstd::string::*;
use crate::assoc::{distinct_names, find_name, lookup, named};
use crate::property::{entry_models, PropertyMap, PropertyModel, PropertyValue};
use crate::text::{
    contains_str, join, join_spec, lemma_with_unique_once, no_duplicates, owned, push_unique,
    str_eq, views, with_unique,
};

verus! {

/// The home of the functions that derive a policy from an object.
#[derive(Debug, Clone, Copy)]
pub struct ObjectLevelSecurity;

/// Who asks: the user and what the user holds.
#[derive(Debug, Clone)]
pub struct SecurityContext {
    pub user_id: String,
    pub roles: Vec<String>,
    pub badges: Vec<String>,
    pub clearances: Vec<String>,
}

/// Which properties of an object are kept from whom.
#[derive(Debug, Clone)]
pub struct PropertyAccessControl {
    /// The properties that nobody sees.
    pub restricted_properties: Vec<String>,
    /// For a property, the clearance that a user needs to see it.
    pub required_clearance_for_properties: Vec<(String, String)>,
}

/// What a user has to hold to get at an object: one of the roles, one of the badges
/// and one of the clearances, as far as any are named.
#[derive(Debug, Clone)]
pub struct ObjectSecurityPolicy {
    pub required_roles: Vec<String>,
    pub required_badges: Vec<String>,
    pub required_clearances: Vec<String>,
    pub property_level_access: Option<PropertyAccessControl>,
}

/// Why access was refused.
#[derive(Debug, Clone, PartialEq, Eq)]
pub enum SecurityError {
    AccessDenied(String),
    InvalidContext(String),
}

impl SecurityError {
    /// The text of the error.
    pub fn to_string(&self) -> (out: String)
        ensures
            out@ == match self {
                SecurityError::AccessDenied(m) => "Access denied: "@ + m@,
                SecurityError::InvalidContext(m) => "Invalid security context: "@ + m@,
            },
    {
        match self {
            SecurityError::AccessDenied(m) => {
                let mut out = owned("Access denied: ");
                out.append(m.as_str());
                out
            },
            SecurityError::InvalidContext(m) => {
                let mut out = owned("Invalid security context: ");
                out.append(m.as_str());
                out
            },
        }
    }
}

impl SecurityContext {
    /// Whether the roles, the badges and the clearances are sets: none holds a name
    /// twice. A context that is made by `new` and the `with_` functions is one.
    pub open spec fn well_formed(&self) -> bool {
        &&& no_duplicates(views(self.roles@))
        &&& no_duplicates(views(self.badges@))
        &&& no_duplicates(views(self.clearances@))
    }

    /// A user who holds nothing.
    pub fn new(user_id: String) -> (context: Self)
        ensures
            context.user_id == user_id,
            context.roles@.len() == 0,
            context.badges@.len() == 0,
            context.clearances@.len() == 0,
            context.well_formed(),
    {
        SecurityContext { user_id, roles: Vec::new(), badges: Vec::new(), clearances: Vec::new() }
    }

    /// The user with one more role.
    pub fn with_role(self, role: String) -> (context: Self)
        ensures
            views(context.roles@) == with_unique(views(self.roles@), role@),
            self.well_formed() ==> context.well_formed(),
            context.user_id == self.user_id,
            context.badges == self.badges,
            context.clearances == self.clearances,
    {
        proof {
            if no_duplicates(views(self.roles@)) {
                lemma_with_unique_once(views(self.roles@), role@);
            }
        }
        let mut context = self;
        push_unique(&mut context.roles, role.as_str());
        context
    }

    /// The user with one more badge.
    pub fn with_badge(self, badge: String) -> (context: Self)
        ensures
            views(context.badges@) == with_unique(views(self.badges@), badge@),
            self.well_formed() ==> context.well_formed(),
            context.user_id == self.user_id,
            context.roles == self.roles,
            context.clearances == self.clearances,
    {
        proof {
            if no_duplicates(views(self.badges@)) {
                lemma_with_unique_once(views(self.badges@), badge@);
            }
        }
        let mut context = self;
        push_unique(&mut context.badges, badge.as_str());
        context
    }

    /// The user with one more clearance.
    pub fn with_clearance(self, clearance: String) -> (context: Self)
        ensures
            views(context.clearances@) == with_unique(views(self.clearances@), clearance@),
            self.well_formed() ==> context.well_formed(),
            context.user_id == self.user_id,
            context.roles == self.roles,
            context.badges == self.badges,
    {
        proof {
            if no_duplicates(views(self.clearances@)) {
                lemma_with_unique_once(views(self.clearances@), clearance@);
            }
        }
        let mut context = self;
        push_unique(&mut context.clearances, clearance.as_str());
        context
    }

    /// Whether the user has the role.
    pub fn has_role(&self, role: &str) -> (held: bool)
        ensures
            held == views(self.roles@).contains(role@),
    {
        contains_str(&self.roles, role)
    }

    /// Whether the user has the badge.
    pub fn has_badge(&self, badge: &str) -> (held: bool)
        ensures
            held == views(self.badges@).contains(badge@),
    {
        contains_str(&self.badges, badge)
    }

    /// Whether the user has the clearance.
    pub fn has_clearance(&self, clearance: &str) -> (held: bool)
        ensures
            held == views(self.clearances@).contains(clearance@),
    {
        contains_str(&self.clearances, clearance)
    }
}

impl ObjectSecurityPolicy {
    /// Whether the required roles, badges and clearances are sets: none holds a name
    /// twice. A policy that is made by `new` and the `with_` functions is one.
    pub open spec fn well_formed(&self) -> bool {
        &&& no_duplicates(views(self.required_roles@))
        &&& no_duplicates(views(self.required_badges@))
        &&& no_duplicates(views(self.required_clearances@))
    }

    /// The policy that asks for nothing.
    pub fn new() -> (policy: Self)
        ensures
            policy.required_roles@.len() == 0,
            policy.required_badges@.len() == 0,
            policy.required_clearances@.len() == 0,
            policy.property_level_access is None,
            policy.well_formed(),
    {
        ObjectSecurityPolicy {
            required_roles: Vec::new(),
            required_badges: Vec::new(),
            required_clearances: Vec::new(),
            property_level_access: None,
        }
    }

    /// The policy that is also met by the role.
    pub fn with_required_role(self, role: String) -> (policy: Self)
        ensures
            self.well_formed() ==> policy.well_formed(),
            views(policy.required_roles@) == with_unique(views(self.required_roles@), role@),
            policy.required_badges == self.required_badges,
            policy.required_clearances == self.required_clearances,
            policy.property_level_access == self.property_level_access,
    {
        proof {
            if no_duplicates(views(self.required_roles@)) {
                lemma_with_unique_once(views(self.required_roles@), role@);
            }
        }
        let mut policy = self;
        push_unique(&mut policy.required_roles, role.as_str());
        policy
    }

    /// The policy that is also met by the badge.
    pub fn with_required_badge(self, badge: String) -> (policy: Self)
        ensures
            self.well_formed() ==> policy.well_formed(),
            views(policy.required_badges@) == with_unique(views(self.required_badges@), badge@),
            policy.required_roles == self.required_roles,
            policy.required_clearances == self.required_clearances,
            policy.property_level_access == self.property_level_access,
    {
        proof {
            if no_duplicates(views(self.required_badges@)) {
                lemma_with_unique_once(views(self.required_badges@), badge@);
            }
        }
        let mut policy = self;
        push_unique(&mut policy.required_badges, badge.as_str());
        policy
    }

    /// The policy that is also met by the clearance.
    pub fn with_required_clearance(self, clearance: String) -> (policy: Self)
        ensures
            self.well_formed() ==> policy.well_formed(),
            views(policy.required_clearances@) == with_unique(
                views(self.required_clearances@),
                clearance@,
            ),
            policy.required_roles == self.required_roles,
            policy.required_badges == self.required_badges,
            policy.property_level_access == self.property_level_access,
    {
        proof {
            if no_duplicates(views(self.required_clearances@)) {
                lemma_with_unique_once(views(self.required_clearances@), clearance@);
            }
        }
        let mut policy = self;
        push_unique(&mut policy.required_clearances, clearance.as_str());
        policy
    }

    /// The policy with the given control over single properties.
    pub fn with_property_access_control(self, pac: PropertyAccessControl) -> (policy: Self)
        ensures
            self.well_formed() ==> policy.well_formed(),
            policy.property_level_access == Some(pac),
            policy.required_roles == self.required_roles,
            policy.required_badges == self.required_badges,
            policy.required_clearances == self.required_clearances,
    {
        let mut policy = self;
        policy.property_level_access = Some(pac);
        policy
    }
}

impl Default for ObjectSecurityPolicy {
    fn default() -> (policy: Self)
        ensures
            policy.required_roles@.len() == 0,
            policy.required_badges@.len() == 0,
            policy.required_clearances@.len() == 0,
            policy.property_level_access is None,
    {
        ObjectSecurityPolicy::new()
    }
}

/// Whether the user holds one of the required names.
pub open spec fn holds_one(required: Seq<Seq<char>>, held: Seq<Seq<char>>) -> bool {
    exists|i: int| 0 <= i < required.len() && held.contains(#[trigger] required[i])
}

/// Whether a requirement is met: nothing is required, or the user holds one of the
/// required names.
pub open spec fn met(required: Seq<Seq<char>>, held: Seq<Seq<char>>) -> bool {
    required.len() == 0 || holds_one(required, held)
}

/// Each name in double quotes.
pub open spec fn in_quotes(names: Seq<Seq<char>>) -> Seq<Seq<char>> {
    names.map_values(|n: Seq<char>| "\""@ + n + "\""@)
}

/// A set of names written out: in braces, each name in double quotes.
pub open spec fn set_text(names: Seq<Seq<char>>) -> Seq<char> {
    "{"@ + join_spec(in_quotes(names), ", "@) + "}"@
}

/// The message for a requirement that is not met.
pub open spec fn denial_text(what: Seq<char>, required: Seq<Seq<char>>, held: Seq<Seq<char>>) -> Seq<
    char,
> {
    "Missing required "@ + what + ". Required: "@ + set_text(required) + ", User has: "@
        + set_text(held)
}

/// Why access is refused, if it is: the first requirement that is not met, of roles,
/// badges and clearances in this order.
pub open spec fn denial(context: SecurityContext, policy: ObjectSecurityPolicy) -> Option<Seq<char>> {
    if !met(views(policy.required_roles@), views(context.roles@)) {
        Some(denial_text("role"@, views(policy.required_roles@), views(context.roles@)))
    } else if !met(views(policy.required_badges@), views(context.badges@)) {
        Some(denial_text("badge"@, views(policy.required_badges@), views(context.badges@)))
    } else if !met(views(policy.required_clearances@), views(context.clearances@)) {
        Some(
            denial_text(
                "clearance"@,
                views(policy.required_clearances@),
                views(context.clearances@),
            ),
        )
    } else {
        None
    }
}

fn requirement_met(required: &Vec<String>, held: &Vec<String>) -> (ok: bool)
    ensures
        ok == met(views(required@), views(held@)),
{
    if required.len() == 0 {
        return true;
    }
    let mut i: usize = 0;
    while i < required.len()
        invariant
            i <= required.len(),
            required@.len() > 0,
            forall|k: int| 0 <= k < i ==> !views(held@).contains(#[trigger] views(required@)[k]),
        decreases required.len() - i,
    {
        proof {
            assert(views(required@)[i as int] == required@[i as int]@);
        }
        if contains_str(held, required[i].as_str()) {
            return true;
        }
        i = i + 1;
    }
    false
}

fn write_set(names: &Vec<String>) -> (out: String)
    ensures
        out@ == set_text(views(names@)),
{
    let mut parts: Vec<String> = Vec::new();
    let mut i: usize = 0;
    proof {
        assert(views(parts@) =~= in_quotes(views(names@).take(0)));
    }
    while i < names.len()
        invariant
            i <= names.len(),
            views(parts@) == in_quotes(views(names@).take(i as int)),
        decreases names.len() - i,
    {
        let mut part = owned("\"");
        part.append(names[i].as_str());
        part.append("\"");
        let ghost before = views(parts@);
        parts.push(part);
        proof {
            let upto = views(names@).take(i as int);
            let next = views(names@).take(i + 1);
            assert(views(names@)[i as int] == names@[i as int]@);
            assert(next =~= upto.push(names@[i as int]@));
            assert(views(parts@) =~= before.push(part@));
            assert(in_quotes(next) =~= in_quotes(upto).push("\""@ + names@[i as int]@ + "\""@));
        }
        i = i + 1;
    }
    proof {
        assert(views(names@).take(names@.len() as int) =~= views(names@));
    }
    let mut out = owned("{");
    let joined = join(&parts, ", ");
    out.append(joined.as_str());
    out.append("}");
    out
}

fn deny(what: &str, required: &Vec<String>, held: &Vec<String>) -> (e: SecurityError)
    ensures
        e == SecurityError::AccessDenied(e->AccessDenied_0),
        e->AccessDenied_0@ == denial_text(what@, views(required@), views(held@)),
{
    let mut message = owned("Missing required ");
    message.append(what);
    message.append(". Required: ");
    let wanted = write_set(required);
    message.append(wanted.as_str());
    message.append(", User has: ");
    let has = write_set(held);
    message.append(has.as_str());
    SecurityError::AccessDenied(message)
}

/// Decides whether a user gets at an object.
///
/// Access is granted exactly where every requirement of the policy is met. Where it
/// is refused, the error names the first requirement that is not met, what it asks for
/// and what the user holds.
pub fn check_access(context: &SecurityContext, policy: &ObjectSecurityPolicy) -> (out: Result<
    (),
    SecurityError,
>)
    ensures
        match out {
            Ok(_) => denial(*context, *policy) is None,
            Err(e) => e is AccessDenied && denial(*context, *policy) == Some(
                e->AccessDenied_0@,
            ),
        },
{
    if !requirement_met(&policy.required_roles, &context.roles) {
        return Err(deny("role", &policy.required_roles, &context.roles));
    }
    if !requirement_met(&policy.required_badges, &context.badges) {
        return Err(deny("badge", &policy.required_badges, &context.badges));
    }
    if !requirement_met(&policy.required_clearances, &context.clearances) {
        return Err(deny("clearance", &policy.required_clearances, &context.clearances));
    }
    Ok(())
}

/// Whether the user may see the property: it is not restricted, and the user holds the
/// clearance that it asks for, if it asks for one. Without control over single
/// properties every property is seen.
pub open spec fn visible(context: SecurityContext, policy: ObjectSecurityPolicy, name: Seq<char>) -> bool {
    match policy.property_level_access {
        None => true,
        Some(pac) => !views(pac.restricted_properties@).contains(name) && (match lookup(
            named(pac.required_clearance_for_properties@),
            name,
        ) {
            Some(clearance) => views(context.clearances@).contains(clearance),
            None => true,
        }),
    }
}

/// The properties that the user may see, in order.
pub open spec fn visible_entries(
    entries: Seq<(Seq<char>, PropertyModel)>,
    context: SecurityContext,
    policy: ObjectSecurityPolicy,
) -> Seq<(Seq<char>, PropertyModel)>
    decreases entries.len(),
{
    if entries.len() == 0 {
        Seq::<(Seq<char>, PropertyModel)>::empty()
    } else if visible(context, policy, entries.last().0) {
        visible_entries(entries.drop_last(), context, policy).push(entries.last())
    } else {
        visible_entries(entries.drop_last(), context, policy)
    }
}

/// Every property that is seen is one of the properties.
pub proof fn lemma_visible_are_entries(
    entries: Seq<(Seq<char>, PropertyModel)>,
    context: SecurityContext,
    policy: ObjectSecurityPolicy,
)
    ensures
        forall|k: int|
            0 <= k < visible_entries(entries, context, policy).len() ==> exists|j: int|
                0 <= j < entries.len() && entries[j] == #[trigger] visible_entries(
                    entries,
                    context,
                    policy,
                )[k],
    decreases entries.len(),
{
    if entries.len() > 0 {
        let rest = entries.drop_last();
        lemma_visible_are_entries(rest, context, policy);
        let seen = visible_entries(entries, context, policy);
        let before = visible_entries(rest, context, policy);
        assert forall|k: int| 0 <= k < seen.len() implies exists|j: int|
            0 <= j < entries.len() && entries[j] == #[trigger] seen[k] by {
            if k < before.len() {
                assert(seen[k] == before[k]);
                let j = choose|j: int| 0 <= j < rest.len() && rest[j] == before[k];
                assert(entries[j] == seen[k]);
            } else {
                assert(entries[entries.len() - 1] == seen[k]);
            }
        }
    }
}

fn is_visible(context: &SecurityContext, policy: &ObjectSecurityPolicy, name: &str) -> (seen: bool)
    ensures
        seen == visible(*context, *policy, name@),
{
    match &policy.property_level_access {
        None => true,
        Some(pac) => {
            if contains_str(&pac.restricted_properties, name) {
                return false;
            }
            let at = find_name(&pac.required_clearance_for_properties, name);
            if at < pac.required_clearance_for_properties.len() {
                context.has_clearance(pac.required_clearance_for_properties[at].1.as_str())
            } else {
                true
            }
        },
    }
}

/// The properties of an object that the user may see.
pub fn filter_properties(
    context: &SecurityContext,
    properties: &PropertyMap,
    policy: &ObjectSecurityPolicy,
) -> (filtered: PropertyMap)
    ensures
        filtered@ == visible_entries(properties@, *context, *policy),
{
    let entries = properties.iter();
    let mut filtered = PropertyMap::new();
    let mut i: usize = 0;
    proof {
        assert(properties@.take(0) =~= Seq::<(Seq<char>, PropertyModel)>::empty());
    }
    while i < entries.len()
        invariant
            i <= entries.len(),
            entry_models(entries@) == properties@,
            distinct_names(properties@),
            filtered@ == visible_entries(properties@.take(i as int), *context, *policy),
        decreases entries.len() - i,
    {
        proof {
            let next = properties@.take(i + 1);
            assert(next.drop_last() =~= properties@.take(i as int));
            assert(next.last() == (entries@[i as int].0@, entries@[i as int].1@));
        }
        if is_visible(context, policy, entries[i].0.as_str()) {
            proof {
                let upto = properties@.take(i as int);
                let seen = filtered@;
                lemma_visible_are_entries(upto, *context, *policy);
                assert forall|k: int| 0 <= k < seen.len() implies (#[trigger] seen[k]).0
                    != entries@[i as int].0@ by {
                    let j = choose|j: int| 0 <= j < upto.len() && upto[j] == seen[k];
                    assert(upto[j] == properties@[j]);
                    assert(properties@[i as int].0 == entries@[i as int].0@);
                }
                crate::responses::lemma_put_new(seen, entries@[i as int].0@, entries@[i as int].1@);
            }
            filtered.insert(entries[i].0.clone(), entries[i].1.clone());
        }
        i = i + 1;
    }
    proof {
        assert(properties@.take(entries@.len() as int) =~= properties@);
    }
    filtered
}

/// The clearance that a classification asks for: the classification itself, for the
/// three that are known.
pub open spec fn clearance_for(classification: Option<PropertyModel>) -> Option<Seq<char>> {
    match classification {
        Some(PropertyModel::String(s)) => if s == "Top Secret"@ || s == "Secret"@ || s
            == "Confidential"@ {
            Some(s)
        } else {
            None
        },
        _ => None,
    }
}

impl ObjectLevelSecurity {
    /// The policy of an object: an object whose property `classification` is one of
    /// `Top Secret`, `Secret` and `Confidential` asks for the clearance of that name;
    /// any other object asks for nothing.
    pub fn get_policy_for_object(object_type: &str, object_properties: &PropertyMap) -> (policy:
        ObjectSecurityPolicy)
        ensures
            policy.required_roles@.len() == 0,
            policy.required_badges@.len() == 0,
            policy.property_level_access is None,
            views(policy.required_clearances@) == match clearance_for(
                lookup(object_properties@, "classification"@),
            ) {
                Some(clearance) => seq![clearance],
                None => Seq::<Seq<char>>::empty(),
            },
    {
        let policy = ObjectSecurityPolicy::new();
        proof {
            assert(views(policy.required_clearances@) =~= Seq::<Seq<char>>::empty());
        }
        match object_properties.get("classification") {
            Some(PropertyValue::String(s)) => {
                if str_eq(s.as_str(), "Top Secret") || str_eq(s.as_str(), "Secret") || str_eq(
                    s.as_str(),
                    "Confidential",
                ) {
                    let policy = policy.with_required_clearance(s.clone());
                    proof {
                        assert(views(policy.required_clearances@) =~= seq![s@]);
                    }
                    policy
                } else {
                    policy
                }
            },
            _ => policy,
        }
    }
}

} // verus!
