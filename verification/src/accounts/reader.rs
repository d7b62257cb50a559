//! Building accounts and charts from JSON documents.
//!
//! An account document is an object with the string members `name`, `id`,
//! `description` and `currency`, an optional boolean `placeholder`, and an
//! optional array `subaccounts` of further account documents. A chart
//! document is an object whose member `accounts` is an array of account
//! documents.

use vstd::prelude::*;
use json::JsonValue;
use crate::accounts::account::{Account, AccountView};
use crate::accounts::account_type::AccountType;
use crate::accounts::chart::{index_by_id, insertion_order, AccountsChart};
use crate::currency::{currency_of, Currency};
use crate::document::{as_flag, as_text, document_of, member, members, Document};

verus! {

/// A member that every account document must have, as a string.
#[derive(Clone, Copy, PartialEq, Eq, Debug, Structural)]
pub enum RequiredField {
    /// The member `name`.
    Name,
    /// The member `id`.
    Id,
    /// The member `description`.
    Description,
    /// The member `currency`.
    Currency,
}

impl RequiredField {
    /// The key of the member in an account document.
    pub open spec fn key(self) -> Seq<char> {
        match self {
            RequiredField::Name => "name"@,
            RequiredField::Id => "id"@,
            RequiredField::Description => "description"@,
            RequiredField::Currency => "currency"@,
        }
    }

    /// The key of the member in an account document.
    pub fn name(self) -> (key: &'static str)
        ensures
            key@ == self.key(),
    {
        match self {
            RequiredField::Name => "name",
            RequiredField::Id => "id",
            RequiredField::Description => "description",
            RequiredField::Currency => "currency",
        }
    }
}

/// Why a document is no account, as a mathematical value: the member that
/// is missing or no string, and the place of the document that lacks it.
/// The place is the list of positions that lead to it, each in the array of
/// account documents one level further down; it is empty for the document
/// that was handed in.
pub struct MissingField {
    pub field: RequiredField,
    pub path: Seq<int>,
}

impl MissingField {
    /// The same failure, seen from the document whose array holds the
    /// failing one at `position`.
    pub open spec fn below(self, position: int) -> MissingField {
        MissingField { field: self.field, path: seq![position] + self.path }
    }
}

/// The failure to read an account document.
#[derive(Clone, PartialEq, Eq, Debug)]
pub struct ParseError {
    /// The member that is missing or is no string.
    pub field: RequiredField,
    /// The positions that lead to the document without that member.
    pub path: Vec<usize>,
}

impl View for ParseError {
    type V = MissingField;

    open spec fn view(&self) -> MissingField {
        MissingField { field: self.field, path: self.path@.map_values(|i: usize| i as int) }
    }
}

/// Whether `doc` has the member `field` as a string.
pub open spec fn has_text(doc: Document, field: RequiredField) -> bool {
    doc.member(field.key()).text() is Some
}

/// The first of name, id, description and currency, in this order, that is
/// not there; `None` where all four are.
pub open spec fn first_absent(
    name: bool,
    id: bool,
    description: bool,
    currency: bool,
) -> Option<RequiredField> {
    if !name {
        Some(RequiredField::Name)
    } else if !id {
        Some(RequiredField::Id)
    } else if !description {
        Some(RequiredField::Description)
    } else if !currency {
        Some(RequiredField::Currency)
    } else {
        None
    }
}

/// The required member that `doc` lacks, if any: the first of name, id,
/// description and currency, in this order.
pub open spec fn first_missing(doc: Document) -> Option<RequiredField> {
    first_absent(
        has_text(doc, RequiredField::Name),
        has_text(doc, RequiredField::Id),
        has_text(doc, RequiredField::Description),
        has_text(doc, RequiredField::Currency),
    )
}

/// The account without sub-accounts that the members of an account document
/// describe. The member `type` is not among them: every account that comes
/// from a document is an asset account. `placeholder` is false unless the
/// document says `true`.
pub open spec fn head_from(
    name: Seq<char>,
    id: Seq<char>,
    description: Seq<char>,
    currency: Seq<char>,
    placeholder: Option<bool>,
) -> AccountView {
    AccountView::leaf(
        id,
        name,
        description,
        AccountType::Asset,
        currency_of(currency),
        placeholder == Some(true),
    )
}

/// The account that a document with all required members describes when
/// its sub-accounts are left aside.
pub open spec fn head_of(doc: Document) -> AccountView {
    head_from(
        doc.member(RequiredField::Name.key()).text()->0,
        doc.member(RequiredField::Id.key()).text()->0,
        doc.member(RequiredField::Description.key()).text()->0,
        doc.member(RequiredField::Currency.key()).text()->0,
        doc.member("placeholder"@).flag(),
    )
}

/// The account documents directly below `doc`.
pub open spec fn sub_documents(doc: Document) -> Seq<Document> {
    doc.member("subaccounts"@).items()
}

/// The account that a document describes, with the whole tree below it, or
/// the first failure met when the document is read before its
/// sub-documents and these from first to last.
pub open spec fn account_of(doc: Document) -> Result<AccountView, MissingField>
    decreases doc, 1int,
{
    match first_missing(doc) {
        Some(field) => Err(MissingField { field, path: Seq::empty() }),
        None => if sub_documents(doc).len() == 0 {
            Ok(head_of(doc))
        } else {
            match accounts_of(sub_documents(doc)) {
                Ok(sub_accounts) => Ok(AccountView { sub_accounts, ..head_of(doc) }),
                Err(failure) => Err(failure),
            }
        },
    }
}

/// The accounts that a list of documents describes, in the same order, or
/// the failure of the first document that is no account.
pub open spec fn accounts_of(docs: Seq<Document>) -> Result<Seq<AccountView>, MissingField>
    decreases docs, 0int,
{
    if docs.len() == 0 {
        Ok(Seq::empty())
    } else {
        match accounts_of(docs.drop_last()) {
            Err(failure) => Err(failure),
            Ok(accounts) => match account_of(docs.last()) {
                Ok(account) => Ok(accounts.push(account)),
                Err(failure) => Err(failure.below(docs.len() - 1)),
            },
        }
    }
}

/// The top-level accounts that a chart document describes.
pub open spec fn chart_of(doc: Document) -> Result<Seq<AccountView>, MissingField> {
    accounts_of(doc.member("accounts"@).items())
}

/// A failure among the first `n` documents is the failure of the whole
/// list.
pub proof fn lemma_failure_stays(docs: Seq<Document>, n: int)
    requires
        0 <= n <= docs.len(),
        accounts_of(docs.take(n)) is Err,
    ensures
        accounts_of(docs) == accounts_of(docs.take(n)),
    decreases docs.len() - n,
{
    if n < docs.len() {
        assert(docs.take(n + 1).drop_last() =~= docs.take(n));
        lemma_failure_stays(docs, n + 1);
    } else {
        assert(docs.take(n) =~= docs);
    }
}

/// A list of documents gives accounts exactly if each of them does, and
/// then gives one account for each document, in the same order.
pub proof fn lemma_accounts_of_ok(docs: Seq<Document>)
    ensures
        accounts_of(docs) is Ok <==> forall|i: int|
            0 <= i < docs.len() ==> account_of(#[trigger] docs[i]) is Ok,
        accounts_of(docs) is Ok ==> accounts_of(docs)->Ok_0.len() == docs.len(),
        accounts_of(docs) is Ok ==> forall|i: int|
            0 <= i < docs.len() ==> account_of(#[trigger] docs[i]) == Ok::<
                AccountView,
                MissingField,
            >(accounts_of(docs)->Ok_0[i]),
    decreases docs.len(),
{
    if docs.len() > 0 {
        let front = docs.drop_last();
        lemma_accounts_of_ok(front);
        if accounts_of(docs) is Ok {
            assert forall|i: int| 0 <= i < docs.len() implies account_of(#[trigger] docs[i])
                == Ok::<AccountView, MissingField>(accounts_of(docs)->Ok_0[i]) by {
                if i < front.len() {
                    assert(front[i] == docs[i]);
                }
            }
        }
        if forall|i: int| 0 <= i < docs.len() ==> account_of(#[trigger] docs[i]) is Ok {
            assert forall|i: int| 0 <= i < front.len() implies account_of(#[trigger] front[i])
                is Ok by {
                assert(front[i] == docs[i]);
            }
        }
    }
}

/// The failure of a list of documents is that of the first document that
/// is no account, with the position of that document in front of its path.
pub proof fn lemma_first_failure(docs: Seq<Document>, k: int)
    requires
        0 <= k < docs.len(),
        account_of(docs[k]) is Err,
        forall|i: int| 0 <= i < k ==> account_of(#[trigger] docs[i]) is Ok,
    ensures
        accounts_of(docs) == Err::<Seq<AccountView>, MissingField>(
            account_of(docs[k])->Err_0.below(k),
        ),
{
    let upto = docs.take(k + 1);
    assert(upto.drop_last() =~= docs.take(k));
    assert forall|i: int| 0 <= i < k implies account_of(#[trigger] docs.take(k)[i]) is Ok by {
        assert(docs.take(k)[i] == docs[i]);
    }
    lemma_accounts_of_ok(docs.take(k));
    lemma_failure_stays(docs, k + 1);
}

/// No account is read in part: a document gives an account exactly if it
/// has all four required members and each document below it gives an
/// account. One missing member anywhere in the tree fails the whole.
pub proof fn lemma_account_of_ok(doc: Document)
    ensures
        account_of(doc) is Ok <==> first_missing(doc) is None && forall|i: int|
            0 <= i < sub_documents(doc).len() ==> account_of(
                #[trigger] sub_documents(doc)[i],
            ) is Ok,
        first_missing(doc) is None <==> has_text(doc, RequiredField::Name) && has_text(
            doc,
            RequiredField::Id,
        ) && has_text(doc, RequiredField::Description) && has_text(doc, RequiredField::Currency),
{
    lemma_accounts_of_ok(sub_documents(doc));
}

/// Whether `account` is the tree that one builds by hand from `doc`: an
/// asset account constructed from the members of `doc`, to which the trees
/// built in the same way from the documents below `doc` were added, one for
/// each and in their order.
pub open spec fn describes(doc: Document, account: AccountView) -> bool
    decreases account,
{
    &&& first_missing(doc) is None
    &&& (AccountView { sub_accounts: Seq::empty(), ..account }) == head_of(doc)
    &&& account.sub_accounts.len() == sub_documents(doc).len()
    &&& forall|i: int|
        0 <= i < account.sub_accounts.len() ==> describes(
            sub_documents(doc)[i],
            #[trigger] account.sub_accounts[i],
        )
}

/// Reading a document gives exactly the tree that one builds by hand from
/// it, and no other.
pub proof fn lemma_round_trip(doc: Document, account: AccountView)
    ensures
        describes(doc, account) <==> account_of(doc) == Ok::<AccountView, MissingField>(account),
    decreases account,
{
    let docs = sub_documents(doc);
    lemma_accounts_of_ok(docs);
    if describes(doc, account) {
        assert forall|i: int| 0 <= i < docs.len() implies account_of(#[trigger] docs[i]) == Ok::<
            AccountView,
            MissingField,
        >(account.sub_accounts[i]) by {
            lemma_round_trip(docs[i], account.sub_accounts[i]);
        }
        if docs.len() > 0 {
            assert(accounts_of(docs)->Ok_0 =~= account.sub_accounts);
        }
    }
    if account_of(doc) == Ok::<AccountView, MissingField>(account) {
        assert forall|i: int| 0 <= i < account.sub_accounts.len() implies describes(
            docs[i],
            #[trigger] account.sub_accounts[i],
        ) by {
            lemma_round_trip(docs[i], account.sub_accounts[i]);
        }
    }
}

/// Reading a chart document gives exactly the top-level accounts that one
/// builds by hand from the documents of its array `accounts`, in their
/// order. A chart read and a chart built by hand have one value, hence one
/// index, the same ids and the same number of them.
pub proof fn lemma_chart_round_trip(doc: Document, roots: Seq<AccountView>)
    requires
        roots.len() == doc.member("accounts"@).items().len(),
        forall|i: int|
            0 <= i < roots.len() ==> describes(
                doc.member("accounts"@).items()[i],
                #[trigger] roots[i],
            ),
    ensures
        chart_of(doc) == Ok::<Seq<AccountView>, MissingField>(roots),
        index_by_id(insertion_order(chart_of(doc)->Ok_0)) == index_by_id(insertion_order(roots)),
{
    let docs = doc.member("accounts"@).items();
    assert forall|i: int| 0 <= i < docs.len() implies account_of(#[trigger] docs[i]) == Ok::<
        AccountView,
        MissingField,
    >(roots[i]) by {
        lemma_round_trip(docs[i], roots[i]);
    }
    lemma_accounts_of_ok(docs);
    assert(accounts_of(docs)->Ok_0 =~= roots);
}

/// The failure of a document that itself lacks `field`.
fn missing(field: RequiredField) -> (error: ParseError)
    ensures
        error@ == (MissingField { field, path: Seq::empty() }),
{
    let error = ParseError { field, path: Vec::new() };
    assert(error@.path =~= Seq::<int>::empty());
    error
}

/// Puts `position` in front of the path of a failure.
fn below(error: ParseError, position: usize) -> (outer: ParseError)
    ensures
        outer@ == error@.below(position as int),
{
    let mut outer = error;
    outer.path.insert(0, position);
    assert(outer@.path =~= seq![position as int] + error@.path);
    outer
}

impl Account {
    /// Builds an account without sub-accounts from the members found in an
    /// account document, each `None` where the document has no such member
    /// of the right kind. It fails when one of the four texts is not there,
    /// and names the first that is not.
    pub fn from_members(
        name: Option<&str>,
        id: Option<&str>,
        description: Option<&str>,
        currency: Option<&str>,
        placeholder: Option<bool>,
    ) -> (built: Result<Account, ParseError>)
        ensures
            match first_absent(name is Some, id is Some, description is Some, currency is Some) {
                None => built is Ok && built->Ok_0@ == head_from(
                    name->0@,
                    id->0@,
                    description->0@,
                    currency->0@,
                    placeholder,
                ),
                Some(field) => built is Err && built->Err_0@ == (MissingField {
                    field,
                    path: Seq::empty(),
                }),
            },
    {
        let name = match name {
            Some(text) => text,
            None => {
                return Err(missing(RequiredField::Name));
            },
        };
        let id = match id {
            Some(text) => text,
            None => {
                return Err(missing(RequiredField::Id));
            },
        };
        let description = match description {
            Some(text) => text,
            None => {
                return Err(missing(RequiredField::Description));
            },
        };
        let act_type = AccountType::Asset;
        let currency_str = match currency {
            Some(text) => text,
            None => {
                return Err(missing(RequiredField::Currency));
            },
        };
        let placeholder = match placeholder {
            Some(flag) => flag,
            None => false,
        };

        Ok(Account::new(id, name, description, act_type, Currency::from(currency_str), placeholder))
    }

    /// Builds an account, with all its sub-accounts, from an account
    /// document. It fails, and hands no account out, when the document or
    /// one below it lacks a required member; the failure names the first
    /// such document and member.
    pub fn from_json(value: &JsonValue) -> (parsed: Result<Account, ParseError>)
        ensures
            match parsed {
                Ok(account) => account_of(document_of(*value)) == Ok::<AccountView, MissingField>(
                    account@,
                ),
                Err(error) => account_of(document_of(*value)) == Err::<AccountView, MissingField>(
                    error@,
                ),
            },
        decreases document_of(*value), 1int,
    {
        let name = as_text(member(value, "name"));
        let id = as_text(member(value, "id"));
        let description = as_text(member(value, "description"));
        let currency = as_text(member(value, "currency"));
        let placeholder = as_flag(member(value, "placeholder"));

        let mut result_account = match Account::from_members(
            name,
            id,
            description,
            currency,
            placeholder,
        ) {
            Ok(account) => account,
            Err(error) => {
                return Err(error);
            },
        };
        match result_account.parse_and_add_sub_accounts(value) {
            Ok(()) => {
                assert(result_account@ =~= (AccountView {
                    sub_accounts: accounts_of(sub_documents(document_of(*value)))->Ok_0,
                    ..head_of(document_of(*value))
                }));
                Ok(result_account)
            },
            Err(error) => Err(error),
        }
    }

    /// Reads the sub-documents of the account document `value` in their
    /// order and adds each as a sub-account, up to the first that fails.
    fn parse_and_add_sub_accounts(&mut self, value: &JsonValue) -> (added: Result<(), ParseError>)
        ensures
            match accounts_of(sub_documents(document_of(*value))) {
                Ok(accounts) => added is Ok && final(self)@ == (AccountView {
                    sub_accounts: old(self)@.sub_accounts + accounts,
                    ..old(self)@
                }),
                Err(failure) => added is Err && added->Err_0@ == failure,
            },
        decreases document_of(*value), 0int,
    {
        let children = members(member(value, "subaccounts"));
        let ghost docs = sub_documents(document_of(*value));
        let mut i: usize = 0;
        while i < children.len()
            invariant
                i <= children@.len(),
                docs == sub_documents(document_of(*value)),
                children@.len() == docs.len(),
                forall|k: int|
                    0 <= k < children@.len() ==> document_of(*#[trigger] children@[k]) == docs[k],
                accounts_of(docs.take(i as int)) is Ok,
                self@ == (AccountView {
                    sub_accounts: old(self)@.sub_accounts + accounts_of(docs.take(i as int))->Ok_0,
                    ..old(self)@
                }),
            decreases children@.len() - i,
        {
            proof {
                assert(docs.take(i + 1).drop_last() =~= docs.take(i as int));
            }
            match Account::from_json(children[i]) {
                Ok(account) => {
                    self.add_sub_account(account);
                    assert(self@.sub_accounts =~= old(self)@.sub_accounts + accounts_of(
                        docs.take(i + 1),
                    )->Ok_0);
                },
                Err(error) => {
                    proof {
                        lemma_failure_stays(docs, i + 1);
                    }
                    return Err(below(error, i));
                },
            }
            i += 1;
        }
        assert(docs.take(i as int) =~= docs);
        Ok(())
    }
}

impl AccountsChart {
    /// Builds a chart from a chart document: each document of the array
    /// `accounts` becomes a top-level account, in the order of the array.
    /// It fails, and hands no chart out, when one of the account documents
    /// in it lacks a required member.
    pub fn from_json(value: &JsonValue) -> (parsed: Result<AccountsChart, ParseError>)
        ensures
            match parsed {
                Ok(chart) => chart_of(document_of(*value)) == Ok::<
                    Seq<AccountView>,
                    MissingField,
                >(chart@),
                Err(error) => chart_of(document_of(*value)) == Err::<
                    Seq<AccountView>,
                    MissingField,
                >(error@),
            },
    {
        let mut chart = AccountsChart::new();
        let accounts_json = members(member(value, "accounts"));
        let ghost docs = document_of(*value).member("accounts"@).items();
        let mut i: usize = 0;
        while i < accounts_json.len()
            invariant
                i <= accounts_json@.len(),
                docs == document_of(*value).member("accounts"@).items(),
                accounts_json@.len() == docs.len(),
                forall|k: int|
                    0 <= k < accounts_json@.len() ==> document_of(*#[trigger] accounts_json@[k])
                        == docs[k],
                accounts_of(docs.take(i as int)) == Ok::<Seq<AccountView>, MissingField>(chart@),
            decreases accounts_json@.len() - i,
        {
            proof {
                assert(docs.take(i + 1).drop_last() =~= docs.take(i as int));
            }
            match Account::from_json(accounts_json[i]) {
                Ok(account) => {
                    chart.add_top_level_account(account);
                },
                Err(error) => {
                    proof {
                        lemma_failure_stays(docs, i + 1);
                    }
                    return Err(below(error, i));
                },
            }
            i += 1;
        }
        assert(docs.take(i as int) =~= docs);
        Ok(chart)
    }
}

} // verus!
