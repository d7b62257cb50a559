use cratchit::accounts::{Account, AccountType, AccountsChart};
use cratchit::currency::Currency;

fn get_chart_of_accounts() -> json::JsonValue {
    let parsed = json::parse(
        r#"

        {
          "accounts": [
            {
                "name": "Assets",
                "description": "Assets",
                "id": "01",
                "type": 1,
                "currency": "USD",
                "placeholder": true,
                "subaccounts": [
                    {
                      "name": "Accounts Receivable",
                      "description": "Accounts Receivable",
                      "id": "01-01",
                      "type": 1,
                      "currency": "USD",
                      "placeholder": true,
                      "subaccounts": [
                        {
                          "name": "Lakeville North High School",
                          "description": "A/R for Lakeville North High School Hockey",
                          "id": "01-0101",
                          "type": 1,
                          "currency": "USD",
                          "placeholder": false,
                          "subaccounts": []
                        }
                      ]
                    }
                ]
            }
          ]
      }

      "#,
    );

    parsed.unwrap()
}

fn leaf(id: &str) -> Account {
    Account::new(id, id, id, AccountType::Expense, Currency::USDollar, false)
}

fn ids_of(accounts: &[Account]) -> Vec<String> {
    accounts.iter().map(|account| account.get_id()).collect()
}

fn three_level_chart() -> AccountsChart {
    let leaf = Account::new(
        "01-0101",
        "Lakeville North High School",
        "A/R for Lakeville North High School Hockey",
        AccountType::Asset,
        Currency::USDollar,
        false,
    );
    let mut mid = Account::new(
        "01-01",
        "Accounts Receivable",
        "Accounts Receivable",
        AccountType::Asset,
        Currency::USDollar,
        true,
    );
    mid.add_sub_account(leaf);
    let mut root = Account::new(
        "01",
        "Assets",
        "Assets",
        AccountType::Asset,
        Currency::USDollar,
        true,
    );
    root.add_sub_account(mid);

    let mut chart = AccountsChart::new();
    chart.add_top_level_account(root);
    chart
}

#[test]
fn account_type_from_string() {
    let lc_string = "asset";
    let lc_string_type = AccountType::from(lc_string);

    let mixed_case_string = "LiaBilIty";
    let mixed_case_string_type = AccountType::from(mixed_case_string);

    assert_eq!(lc_string_type, AccountType::Asset);
    assert_eq!(mixed_case_string_type, AccountType::Liability);
}

#[test]
fn account_type_from_integer() {
    assert_eq!(AccountType::Liability.code(), 5);
    assert_eq!(AccountType::Asset.code(), 1);
}

#[test]
fn account_creation() {
    let account = Account::new(
        "01",
        "Accounts Receivable",
        "Accounts Receivable",
        AccountType::Asset,
        Currency::USDollar,
        true,
    );

    assert_eq!(account.get_id(), "01");
    assert_eq!(account.get_name(), "Accounts Receivable");
    assert_eq!(account.get_description(), "Accounts Receivable");
    assert_eq!(account.get_account_type(), AccountType::Asset);
    assert_eq!(account.get_currency(), Currency::USDollar);
    assert_eq!(account.is_placeholder(), true);
}

#[test]
fn adding_top_level_accounts_to_accounts_chart() {
    let account = Account::new(
        "01",
        "Accounts Receivable",
        "Accounts Receivable",
        AccountType::Asset,
        Currency::USDollar,
        true,
    );

    let mut accounts_chart = AccountsChart::new();
    accounts_chart.add_top_level_account(account);
}

#[test]
fn creating_accounts_chart_from_json() {
    let accounts_json = get_chart_of_accounts();

    let accounts_chart = AccountsChart::from_json(&accounts_json).unwrap();
    assert_eq!(accounts_chart.get_num_accounts(), 3);

    let account = accounts_chart.get_account_by_id("01-0101").unwrap();
    assert_eq!(account.get_name(), "Lakeville North High School");
    assert_eq!(
        account.get_description(),
        "A/R for Lakeville North High School Hockey"
    );
    assert_eq!(account.get_account_type(), AccountType::Asset);
    assert_eq!(account.is_placeholder(), false);
    assert_eq!(account.get_currency(), Currency::USDollar);
}

#[test]
fn getting_all_account_ids_in_a_chart() {
    let accounts_json = get_chart_of_accounts();

    let accounts_chart = AccountsChart::from_json(&accounts_json).unwrap();
    let account_ids = accounts_chart.get_account_ids();

    assert_eq!(account_ids.len(), 3);
    assert!(account_ids.contains(&String::from("01")));
    assert!(account_ids.contains(&String::from("01-01")));
    assert!(account_ids.contains(&String::from("01-0101")));
}

#[test]
fn account_type_ignores_case() {
    assert_eq!(AccountType::from("asset"), AccountType::Asset);
    assert_eq!(AccountType::from("ASSET"), AccountType::Asset);
    assert_eq!(AccountType::from("AsSeT"), AccountType::Asset);
    assert_eq!(AccountType::from("liability"), AccountType::Liability);
    assert_eq!(AccountType::from("Equity"), AccountType::Equity);
    assert_eq!(AccountType::from("EXPENSE"), AccountType::Expense);
    assert_eq!(AccountType::from("iNCOME"), AccountType::Income);
}

#[test]
fn unknown_account_type_is_other() {
    assert_eq!(AccountType::from(""), AccountType::Other);
    assert_eq!(AccountType::from("assets"), AccountType::Other);
    assert_eq!(AccountType::from(" asset"), AccountType::Other);
    assert_eq!(AccountType::from("other"), AccountType::Other);
    assert_eq!(AccountType::from("1"), AccountType::Other);
    assert_eq!(AccountType::from("revenue"), AccountType::Other);
}

#[test]
fn lower_case_names_match_exactly() {
    assert_eq!(AccountType::from_lowercase("asset"), AccountType::Asset);
    assert_eq!(AccountType::from_lowercase("equity"), AccountType::Equity);
    assert_eq!(AccountType::from_lowercase("expense"), AccountType::Expense);
    assert_eq!(AccountType::from_lowercase("income"), AccountType::Income);
    assert_eq!(AccountType::from_lowercase("liability"), AccountType::Liability);
    assert_eq!(AccountType::from_lowercase("ASSET"), AccountType::Other);
    assert_eq!(AccountType::from_lowercase("Liability"), AccountType::Other);
    assert_eq!(AccountType::from_lowercase(""), AccountType::Other);
}

#[test]
fn account_type_codes() {
    assert_eq!(AccountType::Asset.code(), 1);
    assert_eq!(AccountType::Equity.code(), 2);
    assert_eq!(AccountType::Expense.code(), 3);
    assert_eq!(AccountType::Income.code(), 4);
    assert_eq!(AccountType::Liability.code(), 5);
    assert_eq!(AccountType::Other.code(), 6);
}

#[test]
fn new_account_has_no_sub_accounts() {
    let account = Account::new(
        "02",
        "Liabilities",
        "What is owed",
        AccountType::Liability,
        Currency::Unknown,
        false,
    );

    assert_eq!(account.get_id(), "02");
    assert_eq!(account.get_name(), "Liabilities");
    assert_eq!(account.get_description(), "What is owed");
    assert_eq!(account.get_account_type(), AccountType::Liability);
    assert_eq!(account.get_currency(), Currency::Unknown);
    assert_eq!(account.is_placeholder(), false);
    assert_eq!(account.get_sub_accounts().len(), 0);
    assert_eq!(account.get_sub_tree().len(), 0);
}

#[test]
fn new_account_accepts_empty_texts() {
    let account = Account::new("", "", "", AccountType::Other, Currency::Unknown, true);

    assert_eq!(account.get_id(), "");
    assert_eq!(account.get_name(), "");
    assert_eq!(account.get_description(), "");
    assert_eq!(account.get_account_type(), AccountType::Other);
    assert_eq!(account.is_placeholder(), true);
}

#[test]
fn sub_accounts_keep_their_order() {
    let mut parent = leaf("p");
    parent.add_sub_account(leaf("c1"));
    parent.add_sub_account(leaf("c2"));

    assert_eq!(ids_of(&parent.get_sub_accounts()), vec!["c1", "c2"]);

    parent.add_sub_account(leaf("c0"));
    assert_eq!(ids_of(&parent.get_sub_accounts()), vec!["c1", "c2", "c0"]);
    assert_eq!(parent.get_id(), "p");
    assert_eq!(parent.get_account_type(), AccountType::Expense);
}

#[test]
fn sub_tree_of_a_single_child() {
    let mut parent = leaf("p");
    parent.add_sub_account(Account::new(
        "c",
        "Child",
        "The only child",
        AccountType::Income,
        Currency::USDollar,
        true,
    ));

    let tree = parent.get_sub_tree();
    assert_eq!(tree.len(), 1);
    assert_eq!(tree[0].get_id(), "c");
    assert_eq!(tree[0].get_name(), "Child");
    assert_eq!(tree[0].get_description(), "The only child");
    assert_eq!(tree[0].get_account_type(), AccountType::Income);
    assert_eq!(tree[0].is_placeholder(), true);
}

#[test]
fn sub_tree_lists_descendants_before_their_parent() {
    let mut a = leaf("a");
    let mut a1 = leaf("a1");
    a1.add_sub_account(leaf("a11"));
    a.add_sub_account(a1);
    a.add_sub_account(leaf("a2"));
    let mut b = leaf("b");
    b.add_sub_account(leaf("b1"));
    let mut root = leaf("root");
    root.add_sub_account(a);
    root.add_sub_account(b);
    root.add_sub_account(leaf("c"));

    assert_eq!(
        ids_of(&root.get_sub_tree()),
        vec!["a11", "a1", "a2", "a", "b1", "b", "c"]
    );
    assert_eq!(ids_of(&root.get_sub_accounts()), vec!["a", "b", "c"]);
}

#[test]
fn a_copy_does_not_see_later_additions() {
    let mut parent = leaf("p");
    parent.add_sub_account(leaf("c1"));
    let copy = parent.clone();
    let children = parent.get_sub_accounts();
    parent.add_sub_account(leaf("c2"));

    assert_eq!(ids_of(&copy.get_sub_accounts()), vec!["c1"]);
    assert_eq!(ids_of(&children), vec!["c1"]);
    assert_eq!(ids_of(&parent.get_sub_accounts()), vec!["c1", "c2"]);
    assert!(copy != parent);
    assert!(copy == copy.clone());
}

#[test]
fn empty_chart_has_no_accounts() {
    let chart = AccountsChart::new();

    assert_eq!(chart.get_num_accounts(), 0);
    assert_eq!(chart.get_account_ids().len(), 0);
    assert!(chart.get_account_by_id("01").is_none());
    assert!(chart.get_account_by_id("").is_none());
}

#[test]
fn three_level_tree_is_indexed() {
    let chart = three_level_chart();

    assert_eq!(chart.get_num_accounts(), 3);

    let account = chart.get_account_by_id("01-0101").unwrap();
    assert_eq!(account.get_id(), "01-0101");
    assert_eq!(account.get_name(), "Lakeville North High School");
    assert_eq!(
        account.get_description(),
        "A/R for Lakeville North High School Hockey"
    );
    assert_eq!(account.get_account_type(), AccountType::Asset);
    assert_eq!(account.get_currency(), Currency::USDollar);
    assert_eq!(account.is_placeholder(), false);
    assert_eq!(account.get_sub_accounts().len(), 0);

    let root = chart.get_account_by_id("01").unwrap();
    assert_eq!(root.get_name(), "Assets");
    assert_eq!(ids_of(&root.get_sub_tree()), vec!["01-0101", "01-01"]);

    assert!(chart.get_account_by_id("01-02").is_none());
    assert!(chart.get_account_by_id("").is_none());
}

#[test]
fn three_level_tree_has_three_ids() {
    let chart = three_level_chart();

    let mut ids = chart.get_account_ids();
    ids.sort();
    assert_eq!(ids, vec!["01", "01-01", "01-0101"]);
}

#[test]
fn single_top_level_account_is_counted() {
    let mut chart = AccountsChart::new();
    chart.add_top_level_account(Account::new(
        "01",
        "Accounts Receivable",
        "Accounts Receivable",
        AccountType::Asset,
        Currency::USDollar,
        true,
    ));

    assert_eq!(chart.get_num_accounts(), 1);
    assert_eq!(chart.get_account_ids(), vec!["01"]);
    let account = chart.get_account_by_id("01").unwrap();
    assert_eq!(account.get_name(), "Accounts Receivable");
}

#[test]
fn later_top_level_account_wins_a_shared_id() {
    let a = Account::new("01", "A", "first", AccountType::Asset, Currency::USDollar, true);
    let b = Account::new("01", "B", "second", AccountType::Income, Currency::Unknown, false);
    let mut chart = AccountsChart::new();
    chart.add_top_level_account(a);
    chart.add_top_level_account(b);

    assert_eq!(chart.get_num_accounts(), 1);
    assert_eq!(chart.get_account_ids(), vec!["01"]);
    let found = chart.get_account_by_id("01").unwrap();
    assert_eq!(found.get_name(), "B");
    assert_eq!(found.get_description(), "second");
    assert_eq!(found.get_account_type(), AccountType::Income);
    assert_eq!(found.get_currency(), Currency::Unknown);
    assert_eq!(found.is_placeholder(), false);
}

#[test]
fn descendant_wins_an_id_shared_with_its_root() {
    let mut root = Account::new("x", "root", "", AccountType::Asset, Currency::USDollar, true);
    let mut mid = Account::new("m", "mid", "", AccountType::Asset, Currency::USDollar, true);
    mid.add_sub_account(Account::new(
        "x",
        "deep",
        "",
        AccountType::Asset,
        Currency::USDollar,
        false,
    ));
    root.add_sub_account(mid);
    let mut chart = AccountsChart::new();
    chart.add_top_level_account(root);

    assert_eq!(chart.get_num_accounts(), 2);
    assert_eq!(chart.get_account_by_id("x").unwrap().get_name(), "deep");
    let mut ids = chart.get_account_ids();
    ids.sort();
    assert_eq!(ids, vec!["m", "x"]);
}

#[test]
fn parent_wins_an_id_shared_with_its_own_child() {
    let mut parent = Account::new("p", "parent", "", AccountType::Asset, Currency::USDollar, true);
    parent.add_sub_account(Account::new(
        "p",
        "child",
        "",
        AccountType::Asset,
        Currency::USDollar,
        false,
    ));
    let mut root = Account::new("r", "root", "", AccountType::Asset, Currency::USDollar, true);
    root.add_sub_account(parent);
    let mut chart = AccountsChart::new();
    chart.add_top_level_account(root);

    assert_eq!(chart.get_num_accounts(), 2);
    assert_eq!(chart.get_account_by_id("p").unwrap().get_name(), "parent");
}

#[test]
fn later_sibling_wins_a_shared_id() {
    let mut root = leaf("r");
    root.add_sub_account(Account::new("s", "one", "", AccountType::Asset, Currency::USDollar, true));
    root.add_sub_account(Account::new("s", "two", "", AccountType::Asset, Currency::USDollar, true));
    let mut chart = AccountsChart::new();
    chart.add_top_level_account(root);

    assert_eq!(chart.get_num_accounts(), 2);
    assert_eq!(chart.get_account_by_id("s").unwrap().get_name(), "two");
}

#[test]
fn index_follows_the_chart() {
    let mut chart = AccountsChart::new();
    chart.add_top_level_account(leaf("a"));
    let before = chart.get_account_by_id("a").unwrap();
    assert_eq!(chart.get_num_accounts(), 1);
    assert!(chart.get_account_by_id("b").is_none());

    let mut b = leaf("b");
    b.add_sub_account(leaf("b1"));
    chart.add_top_level_account(b);

    assert_eq!(chart.get_num_accounts(), 3);
    assert_eq!(chart.get_account_by_id("b1").unwrap().get_id(), "b1");
    assert_eq!(before.get_sub_accounts().len(), 0);
    let mut ids = chart.get_account_ids();
    ids.sort();
    assert_eq!(ids, vec!["a", "b", "b1"]);
}
