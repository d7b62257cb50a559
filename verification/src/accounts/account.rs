//! One account of a chart: a node of an ordered tree that owns its
//! sub-accounts.

use vstd::prelude::*;
use vstd::string::StringExecFns;
use crate::accounts::account_type::AccountType;
use crate::currency::Currency;

verus! {

/// An account as a mathematical value: its attributes and the values of its
/// sub-accounts, in the order in which they were added.
pub struct AccountView {
    pub id: Seq<char>,
    pub name: Seq<char>,
    pub description: Seq<char>,
    pub account_type: AccountType,
    pub currency: Currency,
    pub placeholder: bool,
    pub sub_accounts: Seq<AccountView>,
}

impl AccountView {
    /// The account with the given attributes and no sub-account.
    pub open spec fn leaf(
        id: Seq<char>,
        name: Seq<char>,
        description: Seq<char>,
        account_type: AccountType,
        currency: Currency,
        placeholder: bool,
    ) -> AccountView {
        AccountView {
            id,
            name,
            description,
            account_type,
            currency,
            placeholder,
            sub_accounts: Seq::empty(),
        }
    }

    /// This account with `child` added behind its other sub-accounts.
    pub open spec fn with_child(self, child: AccountView) -> AccountView {
        AccountView { sub_accounts: self.sub_accounts.push(child), ..self }
    }

    /// Every strict descendant of this account: for each sub-account in
    /// turn, first its own descendants, then the sub-account itself.
    pub open spec fn sub_tree(self) -> Seq<AccountView>
        decreases self, 1int,
    {
        sub_trees(self.sub_accounts)
    }
}

/// The accounts of a list of sibling trees: tree by tree, from left to
/// right, the descendants of each root followed by the root.
pub open spec fn sub_trees(siblings: Seq<AccountView>) -> Seq<AccountView>
    decreases siblings, 0int,
{
    if siblings.len() == 0 {
        Seq::empty()
    } else {
        sub_trees(siblings.drop_last()) + siblings.last().sub_tree().push(siblings.last())
    }
}

/// A newly constructed account has the attributes it was constructed with,
/// no sub-account and no descendant.
pub proof fn lemma_leaf(
    id: Seq<char>,
    name: Seq<char>,
    description: Seq<char>,
    account_type: AccountType,
    currency: Currency,
    placeholder: bool,
)
    ensures
        ({
            let account = AccountView::leaf(
                id,
                name,
                description,
                account_type,
                currency,
                placeholder,
            );
            &&& account.id == id
            &&& account.name == name
            &&& account.description == description
            &&& account.account_type == account_type
            &&& account.currency == currency
            &&& account.placeholder == placeholder
            &&& account.sub_accounts == Seq::<AccountView>::empty()
            &&& account.sub_tree() == Seq::<AccountView>::empty()
        }),
{
}

/// Adding sub-accounts keeps their order: after `first` and then `second`
/// are added, the two stand last among the sub-accounts, in this order, and
/// nothing else has changed. Added to an account without sub-accounts they
/// are all it has.
pub proof fn lemma_children_keep_order(
    account: AccountView,
    first: AccountView,
    second: AccountView,
)
    ensures
        account.with_child(first).with_child(second) == (AccountView {
            sub_accounts: account.sub_accounts + seq![first, second],
            ..account
        }),
        account.sub_accounts.len() == 0 ==> account.with_child(first).with_child(
            second,
        ).sub_accounts == seq![first, second],
{
    let both = account.with_child(first).with_child(second).sub_accounts;
    assert(both =~= account.sub_accounts + seq![first, second]);
}

/// An account without sub-accounts has no descendant.
pub proof fn lemma_sub_tree_without_children(account: AccountView)
    requires
        account.sub_accounts.len() == 0,
    ensures
        account.sub_tree() == Seq::<AccountView>::empty(),
{
}

/// The descendants of an account whose only sub-account has no sub-account
/// of its own are that one sub-account.
pub proof fn lemma_sub_tree_of_one_child(account: AccountView, child: AccountView)
    requires
        account.sub_accounts == seq![child],
        child.sub_accounts.len() == 0,
    ensures
        account.sub_tree() == seq![child],
{
    assert(sub_trees(account.sub_accounts.drop_last()) =~= Seq::<AccountView>::empty());
    assert(child.sub_tree() =~= Seq::<AccountView>::empty());
}

/// Adding a sub-account puts its descendants and then the sub-account
/// itself behind the descendants that the account had.
pub proof fn lemma_sub_tree_with_child(account: AccountView, child: AccountView)
    ensures
        account.with_child(child).sub_tree() == account.sub_tree() + child.sub_tree().push(child),
{
    let children = account.sub_accounts.push(child);
    assert(children.drop_last() =~= account.sub_accounts);
}

/// Whether `other` stands somewhere below `account`: as one of its
/// sub-accounts, or below one of them.
pub open spec fn is_descendant(account: AccountView, other: AccountView) -> bool
    decreases account,
{
    exists|i: int|
        0 <= i < account.sub_accounts.len() && (#[trigger] account.sub_accounts[i] == other
            || is_descendant(account.sub_accounts[i], other))
}

/// The sub-tree of an account holds exactly the accounts below it.
pub proof fn lemma_sub_tree_contains(account: AccountView, other: AccountView)
    ensures
        account.sub_tree().contains(other) <==> is_descendant(account, other),
    decreases account, 1int,
{
    lemma_sub_trees_contains(account.sub_accounts, other);
}

/// A list of sibling trees is flattened to exactly the roots of the trees
/// and the accounts below them.
pub proof fn lemma_sub_trees_contains(siblings: Seq<AccountView>, other: AccountView)
    ensures
        sub_trees(siblings).contains(other) <==> exists|i: int|
            0 <= i < siblings.len() && (#[trigger] siblings[i] == other || is_descendant(
                siblings[i],
                other,
            )),
    decreases siblings, 0int,
{
    if siblings.len() > 0 {
        let front = siblings.drop_last();
        let last = siblings.last();
        let before = sub_trees(front);
        let behind = last.sub_tree().push(last);
        lemma_sub_trees_contains(front, other);
        lemma_sub_tree_contains(last, other);
        if sub_trees(siblings).contains(other) {
            let k = choose|k: int|
                0 <= k < sub_trees(siblings).len() && sub_trees(siblings)[k] == other;
            if k < before.len() {
                assert(before[k] == other);
                let i = choose|i: int|
                    0 <= i < front.len() && (#[trigger] front[i] == other || is_descendant(
                        front[i],
                        other,
                    ));
                assert(siblings[i] == other || is_descendant(siblings[i], other));
            } else if k - before.len() < last.sub_tree().len() {
                assert(last.sub_tree()[k - before.len()] == other);
                assert(siblings[siblings.len() - 1] == other || is_descendant(
                    siblings[siblings.len() - 1],
                    other,
                ));
            } else {
                assert(siblings[siblings.len() - 1] == other || is_descendant(
                    siblings[siblings.len() - 1],
                    other,
                ));
            }
        }
        if exists|i: int|
            0 <= i < siblings.len() && (#[trigger] siblings[i] == other || is_descendant(
                siblings[i],
                other,
            )) {
            let i = choose|i: int|
                0 <= i < siblings.len() && (#[trigger] siblings[i] == other || is_descendant(
                    siblings[i],
                    other,
                ));
            if i < front.len() {
                assert(front[i] == other || is_descendant(front[i], other));
                let k = choose|k: int| 0 <= k < before.len() && before[k] == other;
                assert(sub_trees(siblings)[k] == other);
            } else if siblings[i] == other {
                assert(sub_trees(siblings)[sub_trees(siblings).len() - 1] == other);
            } else {
                let k = choose|k: int|
                    0 <= k < last.sub_tree().len() && last.sub_tree()[k] == other;
                assert(sub_trees(siblings)[before.len() + k] == other);
            }
        }
    }
}

/// The number of accounts in a list of sibling trees.
pub open spec fn count_accounts(siblings: Seq<AccountView>) -> nat
    decreases siblings,
{
    if siblings.len() == 0 {
        0
    } else {
        count_accounts(siblings.drop_last()) + count_accounts(siblings.last().sub_accounts) + 1
    }
}

/// The descendants of an account are listed once each: there are as many
/// entries as the trees below the account have accounts.
pub proof fn lemma_sub_tree_len(account: AccountView)
    ensures
        account.sub_tree().len() == count_accounts(account.sub_accounts),
    decreases account, 1int,
{
    lemma_sub_trees_len(account.sub_accounts);
}

/// A list of sibling trees is flattened to as many entries as it has
/// accounts.
pub proof fn lemma_sub_trees_len(siblings: Seq<AccountView>)
    ensures
        sub_trees(siblings).len() == count_accounts(siblings),
    decreases siblings, 0int,
{
    if siblings.len() > 0 {
        lemma_sub_trees_len(siblings.drop_last());
        lemma_sub_tree_len(siblings.last());
    }
}

/// The values of a list of accounts.
pub open spec fn views_of(accounts: Seq<Account>) -> Seq<AccountView> {
    accounts.map_values(|account: Account| account@)
}

/// A formal record of resources, of claims to them, and of the events that
/// change them. An account owns its sub-accounts; there is no way to remove
/// or to move one.
#[derive(PartialEq)]
pub struct Account {
    id: String,
    name: String,
    description: String,
    account_type: AccountType,
    currency: Currency,
    placeholder: bool,
    sub_accounts: Vec<Account>,
}

impl View for Account {
    type V = AccountView;

    closed spec fn view(&self) -> AccountView
        decreases self,
    {
        AccountView {
            id: self.id@,
            name: self.name@,
            description: self.description@,
            account_type: self.account_type,
            currency: self.currency,
            placeholder: self.placeholder,
            sub_accounts: Seq::new(
                self.sub_accounts@.len(),
                |i: int|
                    if 0 <= i < self.sub_accounts@.len() {
                        self.sub_accounts@[i].view()
                    } else {
                        arbitrary()
                    },
            ),
        }
    }
}

impl Account {
    /// The value of an account lists the values of its sub-accounts.
    proof fn lemma_view_sub_accounts(self)
        ensures
            self@.sub_accounts.len() == self.sub_accounts@.len(),
            forall|i: int|
                0 <= i < self.sub_accounts@.len() ==> #[trigger] self@.sub_accounts[i]
                    == self.sub_accounts@[i]@,
    {
        reveal_with_fuel(<Account as View>::view, 2);
    }

    /// Constructs an account without sub-accounts. No argument is checked:
    /// empty texts are accepted, and so is an id that another account has.
    pub fn new(
        id: &str,
        name: &str,
        description: &str,
        account_type: AccountType,
        currency: Currency,
        placeholder: bool,
    ) -> (account: Account)
        ensures
            account@ == AccountView::leaf(
                id@,
                name@,
                description@,
                account_type,
                currency,
                placeholder,
            ),
    {
        let account = Account {
            id: String::from_str(id),
            name: String::from_str(name),
            description: String::from_str(description),
            account_type,
            currency,
            placeholder,
            sub_accounts: Vec::new(),
        };
        assert(account@.sub_accounts =~= Seq::empty());
        account
    }

    /// The id of this account.
    pub fn get_id(&self) -> (id: String)
        ensures
            id@ == self@.id,
    {
        self.id.clone()
    }

    /// The name of this account.
    pub fn get_name(&self) -> (name: String)
        ensures
            name@ == self@.name,
    {
        self.name.clone()
    }

    /// The description of this account.
    pub fn get_description(&self) -> (description: String)
        ensures
            description@ == self@.description,
    {
        self.description.clone()
    }

    /// The type of this account.
    pub fn get_account_type(&self) -> (account_type: AccountType)
        ensures
            account_type == self@.account_type,
    {
        self.account_type
    }

    /// The currency of this account.
    pub fn get_currency(&self) -> (currency: Currency)
        ensures
            currency == self@.currency,
    {
        self.currency
    }

    /// Whether this account only groups its sub-accounts and takes no
    /// transaction itself.
    pub fn is_placeholder(&self) -> (placeholder: bool)
        ensures
            placeholder == self@.placeholder,
    {
        self.placeholder
    }

    /// Adds `account` behind the other sub-accounts of this account.
    pub fn add_sub_account(&mut self, account: Account)
        ensures
            final(self)@ == old(self)@.with_child(account@),
    {
        self.sub_accounts.push(account);
        proof {
            old(self).lemma_view_sub_accounts();
            self.lemma_view_sub_accounts();
        }
        assert(self@.sub_accounts =~= old(self)@.sub_accounts.push(account@));
    }

    /// Copies of the sub-accounts, in the order in which they were added.
    pub fn get_sub_accounts(&self) -> (sub_accounts: Vec<Account>)
        ensures
            views_of(sub_accounts@) == self@.sub_accounts,
    {
        let sub_accounts = copy_accounts(&self.sub_accounts);
        proof {
            self.lemma_view_sub_accounts();
        }
        sub_accounts
    }

    /// Copies of all strict descendants of this account, never of the
    /// account itself: for each sub-account in turn, first its own
    /// descendants in this same order, then the sub-account.
    pub fn get_sub_tree(&self) -> (sub_tree: Vec<Account>)
        ensures
            views_of(sub_tree@) == self@.sub_tree(),
        decreases self,
    {
        let mut accounts: Vec<Account> = Vec::new();
        let mut i: usize = 0;
        proof {
            self.lemma_view_sub_accounts();
        }
        while i < self.sub_accounts.len()
            invariant
                i <= self.sub_accounts@.len(),
                self@.sub_accounts.len() == self.sub_accounts@.len(),
                forall|k: int|
                    0 <= k < self.sub_accounts@.len() ==> #[trigger] self@.sub_accounts[k]
                        == self.sub_accounts@[k]@,
                views_of(accounts@) == sub_trees(self@.sub_accounts.take(i as int)),
            decreases self.sub_accounts@.len() - i,
        {
            let account = &self.sub_accounts[i];
            let mut tree = account.get_sub_tree();
            let ghost before = accounts@;
            let ghost descendants = tree@;
            accounts.append(&mut tree);
            accounts.push(account.clone());
            proof {
                let done = self@.sub_accounts.take(i + 1);
                assert(done.drop_last() =~= self@.sub_accounts.take(i as int));
                assert(views_of(accounts@) =~= views_of(before) + views_of(descendants).push(
                    account@,
                ));
            }
            i += 1;
        }
        assert(self@.sub_accounts.take(i as int) =~= self@.sub_accounts);
        accounts
    }
}

/// Copies a list of accounts, each with its whole tree.
fn copy_accounts(accounts: &Vec<Account>) -> (copies: Vec<Account>)
    ensures
        copies@.len() == accounts@.len(),
        forall|i: int| 0 <= i < accounts@.len() ==> (#[trigger] copies@[i])@ == accounts@[i]@,
    decreases accounts,
{
    let mut copies: Vec<Account> = Vec::new();
    let mut i: usize = 0;
    while i < accounts.len()
        invariant
            i <= accounts@.len(),
            copies@.len() == i,
            forall|j: int| 0 <= j < i ==> (#[trigger] copies@[j])@ == accounts@[j]@,
        decreases accounts@.len() - i,
    {
        copies.push(accounts[i].clone());
        i += 1;
    }
    copies
}

impl Clone for Account {
    /// A copy of this account with copies of all its descendants.
    fn clone(&self) -> (copy: Account)
        ensures
            copy@ == self@,
        decreases self,
    {
        let copy = Account {
            id: self.id.clone(),
            name: self.name.clone(),
            description: self.description.clone(),
            account_type: self.account_type,
            currency: self.currency,
            placeholder: self.placeholder,
            sub_accounts: copy_accounts(&self.sub_accounts),
        };
        proof {
            self.lemma_view_sub_accounts();
            copy.lemma_view_sub_accounts();
        }
        assert(copy@.sub_accounts =~= self@.sub_accounts);
        copy
    }
}

} // verus!
