//! Sharing rules: who an object is shared with, and with which permission.

use vstd::prelude::*;
use vstd::string::*;
use crate::assoc::{find_name, lemma_position, lemma_position_by_names, lookup, named, position, put};
use crate::text::{
    clone_names, contains_str, nat_text, owned, push_u64, str_eq, views,
};

verus! {

/// What a sharing rule permits.
#[derive(Debug, Clone, Copy, PartialEq, Eq, Structural)]
pub enum SharingPermission {
    Read,
    Write,
    Admin,
}

impl SharingPermission {
    /// Whether the permission lets its holder read: every permission does.
    pub fn can_read(&self) -> (allowed: bool)
        ensures
            allowed,
    {
        true
    }

    /// Whether the permission lets its holder write.
    pub fn can_write(&self) -> (allowed: bool)
        ensures
            allowed == (*self == SharingPermission::Write || *self == SharingPermission::Admin),
    {
        match self {
            SharingPermission::Write => true,
            SharingPermission::Admin => true,
            SharingPermission::Read => false,
        }
    }

    /// Whether the permission lets its holder administer.
    pub fn can_admin(&self) -> (allowed: bool)
        ensures
            allowed == (*self == SharingPermission::Admin),
    {
        match self {
            SharingPermission::Admin => true,
            _ => false,
        }
    }
}

/// Whether a permission covers what is required: reading is covered by every
/// permission, writing by `Write` and `Admin`, administering by `Admin`.
pub open spec fn permits(held: SharingPermission, required: SharingPermission) -> bool {
    match required {
        SharingPermission::Read => true,
        SharingPermission::Write => held == SharingPermission::Write || held
            == SharingPermission::Admin,
        SharingPermission::Admin => held == SharingPermission::Admin,
    }
}

/// Whether the permission of a rule covers what is required.
pub fn has_permission(rule_permission: &SharingPermission, required: &SharingPermission) -> (covered:
    bool)
    ensures
        covered == permits(*rule_permission, *required),
{
    match required {
        SharingPermission::Read => rule_permission.can_read(),
        SharingPermission::Write => rule_permission.can_write(),
        SharingPermission::Admin => rule_permission.can_admin(),
    }
}

/// A rule that shares one object with users and groups.
#[derive(Debug)]
pub struct SharingRule {
    pub id: String,
    pub object_type: String,
    pub object_id: String,
    /// The users who have access themselves.
    pub shared_with_users: Vec<String>,
    /// The groups whose members have access.
    pub shared_with_groups: Vec<String>,
    pub permission: SharingPermission,
    /// Whether the rule comes from a parent object.
    pub inherited: bool,
    /// The type and the id of that parent object.
    pub inherited_from: Option<(String, String)>,
}

/// The mathematical value of a [`SharingRule`].
pub struct RuleModel {
    pub id: Seq<char>,
    pub object_type: Seq<char>,
    pub object_id: Seq<char>,
    pub users: Seq<Seq<char>>,
    pub groups: Seq<Seq<char>>,
    pub permission: SharingPermission,
    pub inherited: bool,
    pub inherited_from: Option<(Seq<char>, Seq<char>)>,
}

impl View for SharingRule {
    type V = RuleModel;

    open spec fn view(&self) -> RuleModel {
        RuleModel {
            id: self.id@,
            object_type: self.object_type@,
            object_id: self.object_id@,
            users: views(self.shared_with_users@),
            groups: views(self.shared_with_groups@),
            permission: self.permission,
            inherited: self.inherited,
            inherited_from: match self.inherited_from {
                Some(parent) => Some((parent.0@, parent.1@)),
                None => None,
            },
        }
    }
}

impl Clone for SharingRule {
    fn clone(&self) -> (out: Self)
        ensures
            out@ == self@,
    {
        SharingRule {
            id: self.id.clone(),
            object_type: self.object_type.clone(),
            object_id: self.object_id.clone(),
            shared_with_users: clone_names(&self.shared_with_users),
            shared_with_groups: clone_names(&self.shared_with_groups),
            permission: self.permission,
            inherited: self.inherited,
            inherited_from: match &self.inherited_from {
                Some(parent) => Some((parent.0.clone(), parent.1.clone())),
                None => None,
            },
        }
    }
}

/// What can go wrong with sharing rules.
#[derive(Debug, Clone, PartialEq, Eq)]
pub enum SharingError {
    RuleNotFound(String),
    InvalidRule(String),
    AccessDenied(String),
}

impl SharingError {
    /// The text of the error.
    pub fn to_string(&self) -> (out: String)
        ensures
            out@ == match self {
                SharingError::RuleNotFound(m) => "Sharing rule not found: "@ + m@,
                SharingError::InvalidRule(m) => "Invalid sharing rule: "@ + m@,
                SharingError::AccessDenied(m) => "Access denied: "@ + m@,
            },
    {
        let (head, detail) = match self {
            SharingError::RuleNotFound(m) => ("Sharing rule not found: ", m),
            SharingError::InvalidRule(m) => ("Invalid sharing rule: ", m),
            SharingError::AccessDenied(m) => ("Access denied: ", m),
        };
        let mut out = owned(head);
        out.append(detail.as_str());
        out
    }
}

/// The models of a list of rules.
pub open spec fn rule_models(rules: Seq<SharingRule>) -> Seq<RuleModel> {
    rules.map_values(|r: SharingRule| r@)
}

/// A store of sharing rules.
pub trait SharingRuleStore {
    /// The rules that share the object, in the order in which the store hands them out.
    spec fn rules_for_object(&self, object_type: Seq<char>, object_id: Seq<char>) -> Seq<RuleModel>;

    /// The rules that share something with the user.
    spec fn rules_for_user(&self, user_id: Seq<char>) -> Seq<RuleModel>;

    /// The rules that share something with the group.
    spec fn rules_for_group(&self, group_id: Seq<char>) -> Seq<RuleModel>;

    /// The rules that share the object.
    fn get_rules_for_object(&self, object_type: &str, object_id: &str) -> (rules: Vec<SharingRule>)
        ensures
            rule_models(rules@) == self.rules_for_object(object_type@, object_id@),
    ;

    /// Takes a rule into the store.
    fn add_rule(&mut self, rule: SharingRule) -> (out: Result<(), SharingError>);

    /// Takes the rule with the id out of the store.
    fn remove_rule(&mut self, rule_id: &str) -> (out: Result<(), SharingError>);

    /// The rules that share something with the user.
    fn get_rules_for_user(&self, user_id: &str) -> (rules: Vec<SharingRule>)
        ensures
            rule_models(rules@) == self.rules_for_user(user_id@),
    ;

    /// The rules that share something with the group.
    fn get_rules_for_group(&self, group_id: &str) -> (rules: Vec<SharingRule>)
        ensures
            rule_models(rules@) == self.rules_for_group(group_id@),
    ;
}

/// The model of an index from names to lists of rule ids.
pub open spec fn index_model(index: Seq<(String, Vec<String>)>) -> Seq<(Seq<char>, Seq<Seq<char>>)> {
    index.map_values(|e: (String, Vec<String>)| (e.0@, views(e.1@)))
}

/// The rule ids that stand under a name in an index.
pub open spec fn ids_at(index: Seq<(Seq<char>, Seq<Seq<char>>)>, key: Seq<char>) -> Seq<Seq<char>> {
    match lookup(index, key) {
        Some(ids) => ids,
        None => Seq::<Seq<char>>::empty(),
    }
}

/// The index with one more rule id under a name.
pub open spec fn pushed(index: Seq<(Seq<char>, Seq<Seq<char>>)>, key: Seq<char>, id: Seq<char>) -> Seq<
    (Seq<char>, Seq<Seq<char>>),
> {
    put(index, key, ids_at(index, key).push(id))
}

/// The index with one more rule id under each of the first `n` names.
pub open spec fn pushed_all(
    index: Seq<(Seq<char>, Seq<Seq<char>>)>,
    keys: Seq<Seq<char>>,
    n: nat,
    id: Seq<char>,
) -> Seq<(Seq<char>, Seq<Seq<char>>)>
    decreases n,
{
    if n == 0 || n > keys.len() {
        index
    } else {
        pushed(pushed_all(index, keys, (n - 1) as nat, id), keys[n - 1], id)
    }
}

/// The ids without `id`.
pub open spec fn without(ids: Seq<Seq<char>>, id: Seq<char>) -> Seq<Seq<char>>
    decreases ids.len(),
{
    if ids.len() == 0 {
        Seq::<Seq<char>>::empty()
    } else if ids.last() == id {
        without(ids.drop_last(), id)
    } else {
        without(ids.drop_last(), id).push(ids.last())
    }
}

/// The index without a rule id under a name.
pub open spec fn dropped(index: Seq<(Seq<char>, Seq<Seq<char>>)>, key: Seq<char>, id: Seq<char>) -> Seq<
    (Seq<char>, Seq<Seq<char>>),
> {
    match lookup(index, key) {
        Some(ids) => put(index, key, without(ids, id)),
        None => index,
    }
}

/// The index without a rule id under each of the first `n` names.
pub open spec fn dropped_all(
    index: Seq<(Seq<char>, Seq<Seq<char>>)>,
    keys: Seq<Seq<char>>,
    n: nat,
    id: Seq<char>,
) -> Seq<(Seq<char>, Seq<Seq<char>>)>
    decreases n,
{
    if n == 0 || n > keys.len() {
        index
    } else {
        dropped(dropped_all(index, keys, (n - 1) as nat, id), keys[n - 1], id)
    }
}

/// The rules that a list of rule ids names, in the order of the ids; an id that names
/// no rule is passed over.
pub open spec fn rules_at(rules: Seq<(Seq<char>, RuleModel)>, ids: Seq<Seq<char>>) -> Seq<RuleModel>
    decreases ids.len(),
{
    if ids.len() == 0 {
        Seq::<RuleModel>::empty()
    } else {
        match lookup(rules, ids.last()) {
            Some(rule) => rules_at(rules, ids.drop_last()).push(rule),
            None => rules_at(rules, ids.drop_last()),
        }
    }
}

/// The name under which an object stands in the index of objects: the length of its
/// type, a colon, its type and its id. Two objects never share a name.
pub open spec fn object_key(object_type: Seq<char>, object_id: Seq<char>) -> Seq<char> {
    nat_text(object_type.len()) + ":"@ + object_type + object_id
}

fn make_object_key(object_type: &str, object_id: &str) -> (key: String)
    ensures
        key@ == object_key(object_type@, object_id@),
{
    let mut key = String::new();
    let length = object_type.unicode_len();
    push_u64(&mut key, length as u64);
    key.append(":");
    key.append(object_type);
    key.append(object_id);
    proof {
        assert(key@ =~= object_key(object_type@, object_id@));
    }
    key
}

fn positions_agree(index: &Vec<(String, Vec<String>)>, key: &str)
    ensures
        position(named(index@), key@) == position(index_model(index@), key@),
{
    proof {
        lemma_position_by_names(named(index@), index_model(index@), key@);
    }
}

fn index_push(index: &mut Vec<(String, Vec<String>)>, key: &str, id: &str)
    ensures
        index_model(final(index)@) == pushed(index_model(old(index)@), key@, id@),
{
    positions_agree(index, key);
    let at = find_name(index, key);
    let ghost before = index_model(index@);
    if at < index.len() {
        let (name, mut ids) = index.remove(at);
        proof {
            lemma_position(before, key@);
            assert(before[at as int] == (name@, views(ids@)));
        }
        let ghost held = views(ids@);
        ids.push(owned(id));
        proof {
            assert(views(ids@) =~= held.push(id@));
        }
        index.insert(at, (name, ids));
        proof {
            assert(index_model(index@) =~= before.update(at as int, (key@, held.push(id@))));
        }
    } else {
        let mut ids: Vec<String> = Vec::new();
        ids.push(owned(id));
        proof {
            assert(views(ids@) =~= Seq::<Seq<char>>::empty().push(id@));
        }
        index.push((owned(key), ids));
        proof {
            assert(index_model(index@) =~= before.push((key@, Seq::<Seq<char>>::empty().push(id@))));
        }
    }
}

fn drop_id(ids: &Vec<String>, id: &str) -> (kept: Vec<String>)
    ensures
        views(kept@) == without(views(ids@), id@),
{
    let mut kept: Vec<String> = Vec::new();
    let mut i: usize = 0;
    proof {
        assert(views(ids@).take(0) =~= Seq::<Seq<char>>::empty());
        assert(views(kept@) =~= Seq::<Seq<char>>::empty());
    }
    while i < ids.len()
        invariant
            i <= ids.len(),
            views(kept@) == without(views(ids@).take(i as int), id@),
        decreases ids.len() - i,
    {
        proof {
            let next = views(ids@).take(i + 1);
            assert(next.drop_last() =~= views(ids@).take(i as int));
            assert(next.last() == ids@[i as int]@);
        }
        if !str_eq(ids[i].as_str(), id) {
            let ghost before = views(kept@);
            kept.push(ids[i].clone());
            proof {
                assert(views(kept@) =~= before.push(ids@[i as int]@));
            }
        }
        i = i + 1;
    }
    proof {
        assert(views(ids@).take(ids@.len() as int) =~= views(ids@));
    }
    kept
}

fn index_drop(index: &mut Vec<(String, Vec<String>)>, key: &str, id: &str)
    ensures
        index_model(final(index)@) == dropped(index_model(old(index)@), key@, id@),
{
    positions_agree(index, key);
    let at = find_name(index, key);
    let ghost before = index_model(index@);
    if at < index.len() {
        let (name, ids) = index.remove(at);
        proof {
            lemma_position(before, key@);
            assert(before[at as int] == (name@, views(ids@)));
        }
        let kept = drop_id(&ids, id);
        index.insert(at, (name, kept));
        proof {
            assert(index_model(index@) =~= before.update(
                at as int,
                (key@, without(views(ids@), id@)),
            ));
        }
    }
}

fn index_get(index: &Vec<(String, Vec<String>)>, key: &str) -> (ids: Vec<String>)
    ensures
        views(ids@) == ids_at(index_model(index@), key@),
{
    positions_agree(index, key);
    let at = find_name(index, key);
    if at < index.len() {
        proof {
            assert(index_model(index@)[at as int] == (index@[at as int].0@, views(index@[at as int].1@)));
        }
        clone_names(&index[at].1)
    } else {
        let none: Vec<String> = Vec::new();
        proof {
            assert(views(none@) =~= Seq::<Seq<char>>::empty());
        }
        none
    }
}

/// The mathematical value of an [`InMemorySharingStore`].
pub struct SharingModel {
    /// The rules by their ids.
    pub rules: Seq<(Seq<char>, RuleModel)>,
    /// For an object, the ids of the rules that were added for it.
    pub by_object: Seq<(Seq<char>, Seq<Seq<char>>)>,
    /// For a user, the ids of the rules that were added with the user.
    pub by_user: Seq<(Seq<char>, Seq<Seq<char>>)>,
    /// For a group, the ids of the rules that were added with the group.
    pub by_group: Seq<(Seq<char>, Seq<Seq<char>>)>,
}

/// The store after a rule was added: the rule stands under its id, in the place of a
/// rule of that id, and its id is added to the index of its object, of each of its
/// users and of each of its groups.
pub open spec fn added(store: SharingModel, rule: RuleModel) -> SharingModel {
    SharingModel {
        rules: put(store.rules, rule.id, rule),
        by_object: pushed(store.by_object, object_key(rule.object_type, rule.object_id), rule.id),
        by_user: pushed_all(store.by_user, rule.users, rule.users.len(), rule.id),
        by_group: pushed_all(store.by_group, rule.groups, rule.groups.len(), rule.id),
    }
}

/// The store after the rule of the given id was removed: the rule is gone, and its id
/// is taken out of the index of its object, of each of its users and of each of its
/// groups.
pub open spec fn removed(store: SharingModel, rule: RuleModel) -> SharingModel {
    SharingModel {
        rules: store.rules.remove(position(store.rules, rule.id)),
        by_object: dropped(store.by_object, object_key(rule.object_type, rule.object_id), rule.id),
        by_user: dropped_all(store.by_user, rule.users, rule.users.len(), rule.id),
        by_group: dropped_all(store.by_group, rule.groups, rule.groups.len(), rule.id),
    }
}

/// A store of sharing rules in memory.
#[derive(Debug)]
pub struct InMemorySharingStore {
    rules: Vec<(String, SharingRule)>,
    object_index: Vec<(String, Vec<String>)>,
    user_index: Vec<(String, Vec<String>)>,
    group_index: Vec<(String, Vec<String>)>,
}

impl View for InMemorySharingStore {
    type V = SharingModel;

    closed spec fn view(&self) -> SharingModel {
        SharingModel {
            rules: named(self.rules@),
            by_object: index_model(self.object_index@),
            by_user: index_model(self.user_index@),
            by_group: index_model(self.group_index@),
        }
    }
}

impl InMemorySharingStore {
    /// A store without rules.
    pub fn new() -> (store: Self)
        ensures
            store@.rules.len() == 0,
            store@.by_object.len() == 0,
            store@.by_user.len() == 0,
            store@.by_group.len() == 0,
    {
        InMemorySharingStore {
            rules: Vec::new(),
            object_index: Vec::new(),
            user_index: Vec::new(),
            group_index: Vec::new(),
        }
    }

    fn collect(&self, ids: &Vec<String>) -> (rules: Vec<SharingRule>)
        ensures
            rule_models(rules@) == rules_at(self@.rules, views(ids@)),
    {
        let mut rules: Vec<SharingRule> = Vec::new();
        let mut i: usize = 0;
        proof {
            assert(views(ids@).take(0) =~= Seq::<Seq<char>>::empty());
            assert(rule_models(rules@) =~= Seq::<RuleModel>::empty());
        }
        while i < ids.len()
            invariant
                i <= ids.len(),
                rule_models(rules@) == rules_at(named(self.rules@), views(ids@).take(i as int)),
            decreases ids.len() - i,
        {
            proof {
                let next = views(ids@).take(i + 1);
                assert(next.drop_last() =~= views(ids@).take(i as int));
                assert(next.last() == ids@[i as int]@);
            }
            let at = find_name(&self.rules, ids[i].as_str());
            if at < self.rules.len() {
                let ghost before = rule_models(rules@);
                rules.push(self.rules[at].1.clone());
                proof {
                    assert(named(self.rules@)[at as int].1 == self.rules@[at as int].1@);
                    assert(rule_models(rules@) =~= before.push(self.rules@[at as int].1@));
                }
            }
            i = i + 1;
        }
        proof {
            assert(views(ids@).take(ids@.len() as int) =~= views(ids@));
        }
        rules
    }
}

impl SharingRuleStore for InMemorySharingStore {
    closed spec fn rules_for_object(&self, object_type: Seq<char>, object_id: Seq<char>) -> Seq<
        RuleModel,
    > {
        rules_at(self@.rules, ids_at(self@.by_object, object_key(object_type, object_id)))
    }

    closed spec fn rules_for_user(&self, user_id: Seq<char>) -> Seq<RuleModel> {
        rules_at(self@.rules, ids_at(self@.by_user, user_id))
    }

    closed spec fn rules_for_group(&self, group_id: Seq<char>) -> Seq<RuleModel> {
        rules_at(self@.rules, ids_at(self@.by_group, group_id))
    }

    fn get_rules_for_object(&self, object_type: &str, object_id: &str) -> (rules: Vec<SharingRule>)
        ensures
            rule_models(rules@) == rules_at(
                self@.rules,
                ids_at(self@.by_object, object_key(object_type@, object_id@)),
            ),
    {
        let key = make_object_key(object_type, object_id);
        let ids = index_get(&self.object_index, key.as_str());
        self.collect(&ids)
    }

    /// Takes a rule into the store. A rule can always be added.
    fn add_rule(&mut self, rule: SharingRule) -> (out: Result<(), SharingError>)
        ensures
            out is Ok,
            final(self)@ == added(old(self)@, rule@),
    {
        let id = rule.id.clone();
        let key = make_object_key(rule.object_type.as_str(), rule.object_id.as_str());
        index_push(&mut self.object_index, key.as_str(), id.as_str());
        let mut i: usize = 0;
        while i < rule.shared_with_users.len()
            invariant
                i <= rule.shared_with_users.len(),
                id@ == rule.id@,
                self.rules == old(self).rules,
                self.group_index == old(self).group_index,
                index_model(self.object_index@) == pushed(
                    old(self)@.by_object,
                    object_key(rule.object_type@, rule.object_id@),
                    rule.id@,
                ),
                index_model(self.user_index@) == pushed_all(
                    old(self)@.by_user,
                    views(rule.shared_with_users@),
                    i as nat,
                    rule.id@,
                ),
            decreases rule.shared_with_users.len() - i,
        {
            proof {
                assert(views(rule.shared_with_users@)[i as int] == rule.shared_with_users@[i as int]@);
            }
            index_push(&mut self.user_index, rule.shared_with_users[i].as_str(), id.as_str());
            i = i + 1;
        }
        let mut k: usize = 0;
        while k < rule.shared_with_groups.len()
            invariant
                k <= rule.shared_with_groups.len(),
                id@ == rule.id@,
                self.rules == old(self).rules,
                index_model(self.object_index@) == pushed(
                    old(self)@.by_object,
                    object_key(rule.object_type@, rule.object_id@),
                    rule.id@,
                ),
                index_model(self.user_index@) == pushed_all(
                    old(self)@.by_user,
                    views(rule.shared_with_users@),
                    rule.shared_with_users@.len(),
                    rule.id@,
                ),
                index_model(self.group_index@) == pushed_all(
                    old(self)@.by_group,
                    views(rule.shared_with_groups@),
                    k as nat,
                    rule.id@,
                ),
            decreases rule.shared_with_groups.len() - k,
        {
            proof {
                assert(views(rule.shared_with_groups@)[k as int] == rule.shared_with_groups@[k as int]@);
            }
            index_push(&mut self.group_index, rule.shared_with_groups[k].as_str(), id.as_str());
            k = k + 1;
        }
        let ghost before = named(self.rules@);
        let at = find_name(&self.rules, id.as_str());
        if at < self.rules.len() {
            self.rules.remove(at);
            let ghost taken = named(self.rules@);
            self.rules.insert(at, (id, rule));
            proof {
                assert(named(self.rules@) =~= before.update(at as int, (rule.id@, rule@)));
            }
        } else {
            self.rules.push((id, rule));
            proof {
                assert(named(self.rules@) =~= before.push((rule.id@, rule@)));
            }
        }
        Ok(())
    }

    /// Takes the rule with the id out of the store.
    ///
    /// The error says that there is no rule of that id; the store is then as it was.
    fn remove_rule(&mut self, rule_id: &str) -> (out: Result<(), SharingError>)
        ensures
            match lookup(old(self)@.rules, rule_id@) {
                Some(rule) => out is Ok && final(self)@ == removed(
                    old(self)@,
                    RuleModel { id: rule_id@, ..rule },
                ),
                None => out == Err::<(), SharingError>(
                    SharingError::RuleNotFound(out->Err_0->RuleNotFound_0),
                ) && out->Err_0->RuleNotFound_0@ == rule_id@ && final(self)@ == old(self)@,
            },
    {
        let at = find_name(&self.rules, rule_id);
        if at >= self.rules.len() {
            return Err(SharingError::RuleNotFound(owned(rule_id)));
        }
        let ghost before = named(self.rules@);
        let (_, rule) = self.rules.remove(at);
        proof {
            assert(before[at as int].1 == rule@);
            assert(named(self.rules@) =~= before.remove(at as int));
        }
        let key = make_object_key(rule.object_type.as_str(), rule.object_id.as_str());
        index_drop(&mut self.object_index, key.as_str(), rule_id);
        let mut i: usize = 0;
        while i < rule.shared_with_users.len()
            invariant
                i <= rule.shared_with_users.len(),
                named(self.rules@) == before.remove(at as int),
                self.group_index == old(self).group_index,
                index_model(self.object_index@) == dropped(
                    old(self)@.by_object,
                    object_key(rule.object_type@, rule.object_id@),
                    rule_id@,
                ),
                index_model(self.user_index@) == dropped_all(
                    old(self)@.by_user,
                    views(rule.shared_with_users@),
                    i as nat,
                    rule_id@,
                ),
            decreases rule.shared_with_users.len() - i,
        {
            proof {
                assert(views(rule.shared_with_users@)[i as int] == rule.shared_with_users@[i as int]@);
            }
            index_drop(&mut self.user_index, rule.shared_with_users[i].as_str(), rule_id);
            i = i + 1;
        }
        let mut k: usize = 0;
        while k < rule.shared_with_groups.len()
            invariant
                k <= rule.shared_with_groups.len(),
                named(self.rules@) == before.remove(at as int),
                index_model(self.object_index@) == dropped(
                    old(self)@.by_object,
                    object_key(rule.object_type@, rule.object_id@),
                    rule_id@,
                ),
                index_model(self.user_index@) == dropped_all(
                    old(self)@.by_user,
                    views(rule.shared_with_users@),
                    rule.shared_with_users@.len(),
                    rule_id@,
                ),
                index_model(self.group_index@) == dropped_all(
                    old(self)@.by_group,
                    views(rule.shared_with_groups@),
                    k as nat,
                    rule_id@,
                ),
            decreases rule.shared_with_groups.len() - k,
        {
            proof {
                assert(views(rule.shared_with_groups@)[k as int] == rule.shared_with_groups@[k as int]@);
            }
            index_drop(&mut self.group_index, rule.shared_with_groups[k].as_str(), rule_id);
            k = k + 1;
        }
        Ok(())
    }

    fn get_rules_for_user(&self, user_id: &str) -> (rules: Vec<SharingRule>)
        ensures
            rule_models(rules@) == rules_at(self@.rules, ids_at(self@.by_user, user_id@)),
    {
        let ids = index_get(&self.user_index, user_id);
        self.collect(&ids)
    }

    fn get_rules_for_group(&self, group_id: &str) -> (rules: Vec<SharingRule>)
        ensures
            rule_models(rules@) == rules_at(self@.rules, ids_at(self@.by_group, group_id@)),
    {
        let ids = index_get(&self.group_index, group_id);
        self.collect(&ids)
    }
}

impl Default for InMemorySharingStore {
    fn default() -> (store: Self)
        ensures
            store@.rules.len() == 0,
            store@.by_object.len() == 0,
            store@.by_user.len() == 0,
            store@.by_group.len() == 0,
    {
        InMemorySharingStore::new()
    }
}

/// Whether a rule speaks of the user: the user is one of its users, or a member of one
/// of its groups.
pub open spec fn applies(rule: RuleModel, user_id: Seq<char>, user_groups: Seq<Seq<char>>) -> bool {
    rule.users.contains(user_id) || exists|i: int|
        0 <= i < rule.groups.len() && user_groups.contains(#[trigger] rule.groups[i])
}

/// What the rules from the `from`-th on grant: the first of them that speaks of the
/// user decides, by its permission; where none does, nothing is granted.
pub open spec fn grants(
    rules: Seq<RuleModel>,
    from: int,
    user_id: Seq<char>,
    user_groups: Seq<Seq<char>>,
    required: SharingPermission,
) -> bool
    decreases rules.len() - from,
{
    if from < 0 || from >= rules.len() {
        false
    } else if applies(rules[from], user_id, user_groups) {
        permits(rules[from].permission, required)
    } else {
        grants(rules, from + 1, user_id, user_groups, required)
    }
}

fn rule_applies(rule: &SharingRule, user_id: &str, user_groups: &Vec<String>) -> (yes: bool)
    ensures
        yes == applies(rule@, user_id@, views(user_groups@)),
{
    if contains_str(&rule.shared_with_users, user_id) {
        return true;
    }
    let mut i: usize = 0;
    while i < rule.shared_with_groups.len()
        invariant
            i <= rule.shared_with_groups.len(),
            !views(rule.shared_with_users@).contains(user_id@),
            forall|k: int|
                0 <= k < i ==> !views(user_groups@).contains(
                    #[trigger] views(rule.shared_with_groups@)[k],
                ),
        decreases rule.shared_with_groups.len() - i,
    {
        proof {
            assert(views(rule.shared_with_groups@)[i as int] == rule.shared_with_groups@[i as int]@);
        }
        if contains_str(user_groups, rule.shared_with_groups[i].as_str()) {
            proof {
                assert(views(user_groups@).contains(rule@.groups[i as int]));
            }
            return true;
        }
        i = i + 1;
    }
    false
}

/// Decides whether the rules of a store give a user what is required on an object.
///
/// The first rule of the object that speaks of the user or of one of the user's groups
/// decides; where no rule does, access is refused.
pub fn check_sharing_access<S: SharingRuleStore>(
    user_id: &str,
    user_groups: &Vec<String>,
    object_type: &str,
    object_id: &str,
    store: &S,
    required_permission: &SharingPermission,
) -> (granted: bool)
    ensures
        granted == grants(
            store.rules_for_object(object_type@, object_id@),
            0,
            user_id@,
            views(user_groups@),
            *required_permission,
        ),
{
    let rules = store.get_rules_for_object(object_type, object_id);
    let ghost all = rule_models(rules@);
    let mut i: usize = 0;
    while i < rules.len()
        invariant
            i <= rules.len(),
            all == rule_models(rules@),
            all == store.rules_for_object(object_type@, object_id@),
            grants(all, 0, user_id@, views(user_groups@), *required_permission) == grants(
                all,
                i as int,
                user_id@,
                views(user_groups@),
                *required_permission,
            ),
        decreases rules.len() - i,
    {
        proof {
            assert(all[i as int] == rules@[i as int]@);
        }
        if rule_applies(&rules[i], user_id, user_groups) {
            return has_permission(&rules[i].permission, required_permission);
        }
        i = i + 1;
    }
    false
}

} // verus!
