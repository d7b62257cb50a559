//! The chart of accounts: a forest of top-level accounts and the queries by
//! id over every account in it.

use vstd::prelude::*;
use vstd::hash_map::StringHashMap;
use crate::accounts::account::{
    count_accounts, is_descendant, lemma_sub_tree_contains, lemma_sub_tree_len, views_of, Account,
    AccountView,
};

verus! {

/// The order in which the accounts of a forest enter the index: root by
/// root, each root followed by its sub-tree.
pub open spec fn insertion_order(roots: Seq<AccountView>) -> Seq<AccountView>
    decreases roots.len(),
{
    if roots.len() == 0 {
        Seq::empty()
    } else {
        insertion_order(roots.drop_last()) + seq![roots.last()] + roots.last().sub_tree()
    }
}

/// The index that results from entering the accounts one after the other
/// under their ids: where several have one id, the last of them stays.
pub open spec fn index_by_id(accounts: Seq<AccountView>) -> Map<Seq<char>, AccountView>
    decreases accounts.len(),
{
    if accounts.len() == 0 {
        Map::empty()
    } else {
        index_by_id(accounts.drop_last()).insert(accounts.last().id, accounts.last())
    }
}

/// The texts of a list of strings.
pub open spec fn texts_of(strings: Seq<String>) -> Seq<Seq<char>> {
    strings.map_values(|s: String| s@)
}

/// Whether a table of accounts holds exactly the entries of `index`.
spec fn holds_index(
    table: Map<Seq<char>, Account>,
    index: Map<Seq<char>, AccountView>,
) -> bool {
    &&& table.dom() =~= index.dom()
    &&& forall|id: Seq<char>| #[trigger] table.contains_key(id) ==> table[id]@ == index[id]
}

/// An id is in the index exactly if some account of the list has it.
pub proof fn lemma_index_keys(accounts: Seq<AccountView>, id: Seq<char>)
    ensures
        index_by_id(accounts).contains_key(id) <==> exists|k: int|
            0 <= k < accounts.len() && (#[trigger] accounts[k]).id == id,
    decreases accounts.len(),
{
    if accounts.len() > 0 {
        let front = accounts.drop_last();
        lemma_index_keys(front, id);
        if exists|k: int| 0 <= k < accounts.len() && (#[trigger] accounts[k]).id == id {
            let k = choose|k: int| 0 <= k < accounts.len() && (#[trigger] accounts[k]).id == id;
            if k < accounts.len() - 1 {
                assert(front[k].id == id);
            }
        }
    }
}

/// Where several accounts of the list have one id, the index holds the last
/// of them: an account is found under its id if no account behind it has
/// the same id.
pub proof fn lemma_last_entry_wins(accounts: Seq<AccountView>, k: int)
    requires
        0 <= k < accounts.len(),
        forall|later: int| k < later < accounts.len() ==> (#[trigger] accounts[later]).id
            != accounts[k].id,
    ensures
        index_by_id(accounts).contains_key(accounts[k].id),
        index_by_id(accounts)[accounts[k].id] == accounts[k],
    decreases accounts.len(),
{
    if k < accounts.len() - 1 {
        let front = accounts.drop_last();
        lemma_last_entry_wins(front, k);
    }
}

/// The index has finitely many ids, and no more than the list has accounts.
pub proof fn lemma_index_size(accounts: Seq<AccountView>)
    ensures
        index_by_id(accounts).dom().finite(),
        index_by_id(accounts).dom().len() <= accounts.len(),
    decreases accounts.len(),
{
    if accounts.len() > 0 {
        lemma_index_size(accounts.drop_last());
    }
}

/// Where no two accounts of the list have one id, the index has as many
/// ids as the list has accounts.
pub proof fn lemma_index_size_distinct(accounts: Seq<AccountView>)
    requires
        forall|i: int, j: int|
            0 <= i < j < accounts.len() ==> (#[trigger] accounts[i]).id != (
            #[trigger] accounts[j]).id,
    ensures
        index_by_id(accounts).dom().len() == accounts.len(),
    decreases accounts.len(),
{
    if accounts.len() > 0 {
        let front = accounts.drop_last();
        lemma_index_size_distinct(front);
        lemma_index_size(front);
        lemma_index_keys(front, accounts.last().id);
    }
}

/// A top-level account added to a forest enters the index behind all that
/// the forest held, followed by its sub-tree.
pub proof fn lemma_insertion_order_push(roots: Seq<AccountView>, root: AccountView)
    ensures
        insertion_order(roots.push(root)) == insertion_order(roots) + seq![root] + root.sub_tree(),
{
    assert(roots.push(root).drop_last() =~= roots);
}

/// The accounts that enter the index are exactly the top-level accounts of
/// the forest and the accounts below them.
pub proof fn lemma_insertion_order_contains(roots: Seq<AccountView>, account: AccountView)
    ensures
        insertion_order(roots).contains(account) <==> exists|i: int|
            0 <= i < roots.len() && (#[trigger] roots[i] == account || is_descendant(
                roots[i],
                account,
            )),
    decreases roots.len(),
{
    if roots.len() > 0 {
        let front = roots.drop_last();
        let last = roots.last();
        let before = insertion_order(front);
        let all = insertion_order(roots);
        lemma_insertion_order_contains(front, account);
        lemma_sub_tree_contains(last, account);
        if all.contains(account) {
            let k = choose|k: int| 0 <= k < all.len() && all[k] == account;
            if k < before.len() {
                assert(before[k] == account);
                let i = choose|i: int|
                    0 <= i < front.len() && (#[trigger] front[i] == account || is_descendant(
                        front[i],
                        account,
                    ));
                assert(roots[i] == account || is_descendant(roots[i], account));
            } else {
                if k > before.len() {
                    assert(last.sub_tree()[k - before.len() - 1] == account);
                }
                assert(roots[roots.len() - 1] == account || is_descendant(
                    roots[roots.len() - 1],
                    account,
                ));
            }
        }
        if exists|i: int|
            0 <= i < roots.len() && (#[trigger] roots[i] == account || is_descendant(
                roots[i],
                account,
            )) {
            let i = choose|i: int|
                0 <= i < roots.len() && (#[trigger] roots[i] == account || is_descendant(
                    roots[i],
                    account,
                ));
            if i < front.len() {
                assert(front[i] == account || is_descendant(front[i], account));
                let k = choose|k: int| 0 <= k < before.len() && before[k] == account;
                assert(all[k] == account);
            } else if roots[i] == account {
                assert(all[before.len() as int] == account);
            } else {
                let k = choose|k: int|
                    0 <= k < last.sub_tree().len() && last.sub_tree()[k] == account;
                assert(all[before.len() + 1 + k] == account);
            }
        }
    }
}

/// Every account of a forest enters the index once: the insertion order is
/// as long as the forest has accounts.
pub proof fn lemma_insertion_order_len(roots: Seq<AccountView>)
    ensures
        insertion_order(roots).len() == count_accounts(roots),
    decreases roots.len(),
{
    if roots.len() > 0 {
        lemma_insertion_order_len(roots.drop_last());
        lemma_sub_tree_len(roots.last());
    }
}

/// The index of a forest has at most as many ids as the forest has
/// accounts, and exactly as many where no two accounts share an id.
pub proof fn lemma_distinct_ids_count(roots: Seq<AccountView>)
    ensures
        index_by_id(insertion_order(roots)).dom().finite(),
        index_by_id(insertion_order(roots)).dom().len() <= count_accounts(roots),
        (forall|i: int, j: int|
            0 <= i < j < insertion_order(roots).len() ==> (#[trigger] insertion_order(roots)[i]).id
                != (#[trigger] insertion_order(roots)[j]).id) ==> index_by_id(
            insertion_order(roots),
        ).dom().len() == count_accounts(roots),
{
    lemma_insertion_order_len(roots);
    lemma_index_size(insertion_order(roots));
    if forall|i: int, j: int|
        0 <= i < j < insertion_order(roots).len() ==> (#[trigger] insertion_order(roots)[i]).id
            != (#[trigger] insertion_order(roots)[j]).id {
        lemma_index_size_distinct(insertion_order(roots));
    }
}

/// A Chart of Accounts: the top-level accounts of a ledger, each with the
/// tree of sub-accounts below it.
pub struct AccountsChart {
    top_level_accounts: Vec<Account>,
}

impl View for AccountsChart {
    type V = Seq<AccountView>;

    /// The top-level accounts, in the order in which they were added.
    closed spec fn view(&self) -> Seq<AccountView> {
        views_of(self.top_level_accounts@)
    }
}

impl AccountsChart {
    /// The index of the chart: every account that can be reached from a
    /// top-level account, under its id. It is derived from the forest alone.
    pub open spec fn account_map(&self) -> Map<Seq<char>, AccountView> {
        index_by_id(insertion_order(self@))
    }

    /// A chart without accounts.
    pub fn new() -> (chart: AccountsChart)
        ensures
            chart@ == Seq::<AccountView>::empty(),
    {
        AccountsChart { top_level_accounts: Vec::new() }
    }

    /// Adds `account` behind the other top-level accounts.
    pub fn add_top_level_account(&mut self, account: Account)
        ensures
            final(self)@ == old(self)@.push(account@),
    {
        self.top_level_accounts.push(account);
    }

    /// Copies of all accounts of the chart in the order in which they enter
    /// the index.
    fn accounts_in_insertion_order(&self) -> (accounts: Vec<Account>)
        ensures
            views_of(accounts@) == insertion_order(self@),
    {
        let mut accounts: Vec<Account> = Vec::new();
        let mut i: usize = 0;
        while i < self.top_level_accounts.len()
            invariant
                i <= self.top_level_accounts@.len(),
                views_of(accounts@) == insertion_order(self@.take(i as int)),
            decreases self.top_level_accounts@.len() - i,
        {
            let root = &self.top_level_accounts[i];
            let mut sub_tree = root.get_sub_tree();
            let ghost before = accounts@;
            let ghost descendants = sub_tree@;
            accounts.push(root.clone());
            accounts.append(&mut sub_tree);
            proof {
                let done = self@.take(i + 1);
                assert(done.drop_last() =~= self@.take(i as int));
                assert(views_of(accounts@) =~= views_of(before) + seq![root@] + views_of(
                    descendants,
                ));
            }
            i += 1;
        }
        assert(self@.take(i as int) =~= self@);
        accounts
    }

    /// Builds the index of the chart anew: for each top-level account in
    /// turn, the account itself is entered under its id and then each
    /// account of its sub-tree, a later entry replacing an earlier one with
    /// the same id.
    fn get_account_map(&self) -> (mapping: StringHashMap<Account>)
        ensures
            holds_index(mapping@, self.account_map()),
    {
        let mut mapping: StringHashMap<Account> = StringHashMap::new();
        let accounts = self.accounts_in_insertion_order();
        let mut i: usize = 0;
        while i < accounts.len()
            invariant
                i <= accounts@.len(),
                holds_index(mapping@, index_by_id(views_of(accounts@).take(i as int))),
            decreases accounts@.len() - i,
        {
            let account = &accounts[i];
            mapping.insert(account.get_id(), account.clone());
            proof {
                let done = views_of(accounts@).take(i + 1);
                assert(done.drop_last() =~= views_of(accounts@).take(i as int));
            }
            i += 1;
        }
        assert(views_of(accounts@).take(i as int) =~= views_of(accounts@));
        mapping
    }

    /// The number of distinct ids among the accounts of the chart.
    pub fn get_num_accounts(&self) -> (count: usize)
        ensures
            count == self.account_map().dom().len(),
    {
        let mapping = self.get_account_map();
        mapping.len()
    }

    /// A copy of the account that the index holds under `id`, or `None`
    /// where no account of the chart has that id.
    pub fn get_account_by_id(&self, id: &str) -> (found: Option<Account>)
        ensures
            match found {
                Some(account) => self.account_map().contains_key(id@) && account@
                    == self.account_map()[id@],
                None => !self.account_map().contains_key(id@),
            },
    {
        let mapping = self.get_account_map();
        match mapping.get(id) {
            Some(account) => Some(account.clone()),
            None => None,
        }
    }

    /// The ids of the accounts of the chart, each of them once. The order
    /// is not part of the contract.
    pub fn get_account_ids(&self) -> (ids: Vec<String>)
        ensures
            texts_of(ids@).no_duplicates(),
            texts_of(ids@).to_set() == self.account_map().dom(),
            ids@.len() == self.account_map().dom().len(),
    {
        let mut remaining = self.get_account_map();
        let accounts = self.accounts_in_insertion_order();
        let ghost index = self.account_map();
        let mut ids: Vec<String> = Vec::new();
        let mut i: usize = 0;
        while i < accounts.len()
            invariant
                i <= accounts@.len(),
                index == self.account_map(),
                views_of(accounts@) == insertion_order(self@),
                texts_of(ids@).no_duplicates(),
                forall|id: Seq<char>| #[trigger]
                    texts_of(ids@).contains(id) ==> index.contains_key(id)
                        && !remaining@.contains_key(id),
                forall|id: Seq<char>|
                    index.contains_key(id) && !(#[trigger] remaining@.contains_key(id))
                        ==> texts_of(ids@).contains(id),
                forall|id: Seq<char>| #[trigger]
                    remaining@.contains_key(id) ==> index.contains_key(id),
                forall|k: int|
                    0 <= k < i ==> !remaining@.contains_key((#[trigger] accounts@[k])@.id),
            decreases accounts@.len() - i,
        {
            let id = accounts[i].get_id();
            let ghost listed = texts_of(ids@);
            if remaining.contains_key(id.as_str()) {
                remaining.remove(id.as_str());
                ids.push(id);
                proof {
                    assert(texts_of(ids@) =~= listed.push(id@));
                    assert(!listed.contains(id@));
                    assert forall|other: Seq<char>| #[trigger]
                        texts_of(ids@).contains(other) implies index.contains_key(other)
                        && !remaining@.contains_key(other) by {
                        if other != id@ {
                            let k = choose|k: int|
                                0 <= k < texts_of(ids@).len() && texts_of(ids@)[k] == other;
                            assert(listed[k] == other);
                            assert(listed.contains(other));
                        }
                    }
                    assert forall|other: Seq<char>|
                        index.contains_key(other) && !(#[trigger] remaining@.contains_key(
                            other,
                        )) implies texts_of(ids@).contains(other) by {
                        if other == id@ {
                            assert(texts_of(ids@)[listed.len() as int] == id@);
                        } else {
                            let k = choose|k: int| 0 <= k < listed.len() && listed[k] == other;
                            assert(texts_of(ids@)[k] == other);
                        }
                    }
                }
            }
            i += 1;
        }
        proof {
            assert forall|id: Seq<char>| index.contains_key(id) implies !remaining@.contains_key(
                id,
            ) by {
                lemma_index_keys(insertion_order(self@), id);
                let k = choose|k: int|
                    0 <= k < accounts@.len() && (#[trigger] views_of(accounts@)[k]).id == id;
                assert(!remaining@.contains_key(accounts@[k]@.id));
            }
            texts_of(ids@).unique_seq_to_set();
        }
        ids
    }
}

} // verus!
