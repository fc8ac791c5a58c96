use cashio::cli::{AddCmd, CmdError, Commands, ExecutableCmd, ListCmd, ModCmd, RmCmd};
use cashio::date::CivilDate;
use cashio::filter::{contains, FilterOptions, QueryFilter};
use cashio::mapper::InputError;
use cashio::model::Record;
use cashio::repo::{RecordUpdate, Repo, RepoError};

fn day(year: i32, month: u32, day: u32) -> CivilDate {
    CivilDate { year, month, day }
}

fn mk_record(num_records: i32) -> Vec<Record> {
    let categories = vec!["default", "grocery", "gifts", "utility"];
    let description_suffixs = vec!["Normal Text:", "Other Text:"];
    let mut records = Vec::new();
    for i in 0..num_records as usize {
        let name = i.to_string();
        let cents = i as i32 * 100 * (1 - i as i32 % 2 * 2);
        let category = String::from(categories[i % categories.len()]);
        let mut description = String::from(description_suffixs[i % description_suffixs.len()]);
        description.push_str("Common Description");
        records.push(Record {
            id: (i + 1) as i32,
            name,
            cents,
            date: day(2024, 2, 10),
            category,
            description,
        });
    }
    records
}

fn ready_repo() -> Repo {
    let mut repo = Repo::new();
    repo.init();
    repo
}

fn everything() -> QueryFilter {
    QueryFilter::everything()
}

#[test]
fn test_insert() {
    let records = mk_record(100);
    let mut repo = ready_repo();
    for r in records.iter() {
        assert!(repo.insert(r).is_ok());
    }
    let ls_result = repo.list_all().unwrap();
    assert_eq!(ls_result.len(), 100);
    for (i, rr) in ls_result.iter().enumerate() {
        assert_eq!(rr, records.get(i).unwrap())
    }
}

#[test]
fn operations_before_init_fail() {
    let mut repo = Repo::new();
    let r = mk_record(1).remove(0);
    assert_eq!(repo.insert(&r), Err(RepoError::NotInitialized));
    assert!(matches!(repo.list_all(), Err(RepoError::NotInitialized)));
    assert!(matches!(repo.find(&everything()), Err(RepoError::NotInitialized)));
    assert_eq!(repo.rm(1), Err(RepoError::NotInitialized));
}

#[test]
fn init_twice_keeps_rows() {
    let mut repo = ready_repo();
    for r in mk_record(3).iter() {
        repo.insert(r).unwrap();
    }
    let before = repo.list_all().unwrap();
    repo.init();
    repo.init();
    assert_eq!(repo.list_all().unwrap(), before);
}

#[test]
fn insert_assigns_identity_and_keeps_fields() {
    let mut repo = ready_repo();
    let mut r = mk_record(1).remove(0);
    r.id = 77;
    let stored = repo.insert(&r).unwrap();
    assert_eq!(stored.id, 1);
    let listed = repo.find(&everything()).unwrap();
    assert_eq!(listed.len(), 1);
    let mut expected = r.clone();
    expected.id = 1;
    assert_eq!(listed[0], expected);
}

#[test]
fn category_and_date_range_compose() {
    let mut repo = ready_repo();
    let cats = ["grocery", "gifts", "utility"];
    let dates = [day(2024, 1, 5), day(2024, 3, 20)];
    for c in cats.iter() {
        for d in dates.iter() {
            let r = Record::new(String::from("x"), 100, *d, Some(String::from(*c)), None);
            repo.insert(&r).unwrap();
        }
    }
    let mut opts = FilterOptions::empty();
    opts.category = Some(String::from("grocery"));
    opts.date_from = Some(day(2024, 3, 1));
    opts.date_to = Some(day(2024, 3, 31));
    let f = QueryFilter::new(opts).unwrap();
    let got = repo.find(&f).unwrap();
    assert_eq!(got.len(), 1);
    assert_eq!(got[0].category, "grocery");
    assert_eq!(got[0].date, day(2024, 3, 20));
    assert_eq!(got[0].id, 2);
}

#[test]
fn inverted_range_is_refused() {
    let mut opts = FilterOptions::empty();
    opts.date_from = Some(day(2024, 3, 2));
    opts.date_to = Some(day(2024, 3, 1));
    assert!(matches!(QueryFilter::new(opts), Err(InputError::Validation)));
}

#[test]
fn fuzzy_matches_name_or_description() {
    let mut repo = ready_repo();
    repo.insert(&Record::new(String::from("coffee"), 350, day(2024, 1, 1), None, None)).unwrap();
    repo.insert(&Record::new(String::from("bus"), 250, day(2024, 1, 1), None, Some(String::from("to the cafe")))).unwrap();
    repo.insert(&Record::new(String::from("rent"), 90000, day(2024, 1, 1), None, None)).unwrap();
    let mut opts = FilterOptions::empty();
    opts.fuzzy = Some(String::from("caf"));
    let got = repo.find(&QueryFilter::new(opts).unwrap()).unwrap();
    assert_eq!(got.len(), 1);
    assert_eq!(got[0].name, "bus");
    let mut opts = FilterOptions::empty();
    opts.fuzzy = Some(String::from("ff"));
    let got = repo.find(&QueryFilter::new(opts).unwrap()).unwrap();
    assert_eq!(got.len(), 1);
    assert_eq!(got[0].name, "coffee");
    let mut opts = FilterOptions::empty();
    opts.id = Some(3);
    let got = repo.find(&QueryFilter::new(opts).unwrap()).unwrap();
    assert_eq!(got.len(), 1);
    assert_eq!(got[0].name, "rent");
}

#[test]
fn substring_search() {
    let t: Vec<char> = "hello".chars().collect();
    let p: Vec<char> = "ll".chars().collect();
    let q: Vec<char> = "lo!".chars().collect();
    assert!(contains(&t, &p));
    assert!(!contains(&t, &q));
    assert!(contains(&t, &Vec::new()));
}

#[test]
fn modify_missing_identity_is_not_found() {
    let mut repo = ready_repo();
    for r in mk_record(4).iter() {
        repo.insert(r).unwrap();
    }
    let u = RecordUpdate { name: Some(String::from("n")), cents: None, date: None, category: None, description: None };
    assert_eq!(repo.modify(99, &u), Err(RepoError::NotFound(99)));
    assert_eq!(repo.len(), 4);
}

#[test]
fn modify_applies_only_given_fields() {
    let mut repo = ready_repo();
    let r = Record::new(String::from("lunch"), 1200, day(2024, 1, 2), Some(String::from("food")), Some(String::from("noon")));
    repo.insert(&r).unwrap();
    let u = RecordUpdate { name: None, cents: Some(1500), date: None, category: None, description: Some(String::from("late")) };
    let m = repo.modify(1, &u).unwrap();
    assert_eq!(m.name, "lunch");
    assert_eq!(m.cents, 1500);
    assert_eq!(m.category, "food");
    assert_eq!(m.description, "late");
    assert_eq!(repo.list_all().unwrap()[0], m);
}

#[test]
fn removed_identity_never_returns() {
    let mut repo = ready_repo();
    for r in mk_record(3).iter() {
        repo.insert(r).unwrap();
    }
    let gone = repo.rm(3).unwrap();
    assert_eq!(gone.id, 3);
    assert!(repo.list_all().unwrap().iter().all(|r| r.id != 3));
    assert_eq!(repo.rm(3), Err(RepoError::NotFound(3)));
    let again = repo.insert(&mk_record(1)[0]).unwrap();
    assert_eq!(again.id, 4);
}

#[test]
fn restore_checks_identity_order() {
    let rows = mk_record(3);
    let repo = Repo::restore(rows.clone(), 4).unwrap();
    assert_eq!(repo.list_all().unwrap(), rows);
    assert!(matches!(Repo::restore(rows.clone(), 3), Err(RepoError::ConnectionFailed(_))));
    let mut swapped = rows.clone();
    swapped.swap(0, 1);
    assert!(matches!(Repo::restore(swapped, 10), Err(RepoError::ConnectionFailed(_))));
}

#[test]
fn error_messages() {
    assert_eq!(RepoError::ConnectionFailed(String::from("down")).message(), "Database Error: down");
    assert_eq!(RepoError::NotFound(5).message(), "No record with this id");
}

#[test]
fn record_defaults() {
    let r = Record::new(String::from("a"), 1, day(2024, 1, 1), None, None);
    assert_eq!(r.category, "default");
    assert_eq!(r.description, "");
    assert_eq!(r.id, 0);
}

fn add(name: &str, amount: &str, date: Option<&str>, category: Option<&str>) -> Commands {
    Commands::Add(AddCmd {
        name: String::from(name),
        amount: String::from(amount),
        date: date.map(String::from),
        category: category.map(String::from),
        description: None,
    })
}

fn ls() -> ListCmd {
    ListCmd { query: None, id: None, category: None, month: None, year: None, from: None, to: None }
}

#[test]
fn commands_run_against_a_store() {
    let today = day(2024, 2, 10);
    let mut repo = ready_repo();
    let out = add("tea", "3.5", Some("2024-01-15"), Some("food")).exec(&mut repo, today).unwrap();
    assert_eq!(out[0].cents, 350);
    assert_eq!(out[0].date, day(2024, 1, 15));
    add("book", "12", None, None).exec(&mut repo, today).unwrap();
    assert_eq!(add("bad", "1.234", None, None).exec(&mut repo, today), Err(CmdError::Input(InputError::Validation)));
    assert_eq!(add("", "1", None, None).exec(&mut repo, today), Err(CmdError::Input(InputError::Validation)));
    assert_eq!(repo.len(), 2);

    let mut q = ls();
    q.month = Some(String::from("2"));
    let got = Commands::Ls(q).exec(&mut repo, today).unwrap();
    assert_eq!(got.len(), 1);
    assert_eq!(got[0].name, "book");

    let mut q = ls();
    q.year = Some(String::from("2024"));
    assert_eq!(Commands::Ls(q).exec(&mut repo, today).unwrap().len(), 2);

    let mut q = ls();
    q.to = Some(String::from("2024-02-01"));
    assert_eq!(Commands::Ls(q).exec(&mut repo, today), Err(CmdError::Input(InputError::Validation)));

    let mut q = ls();
    q.from = Some(String::from("2024-01-01"));
    q.to = Some(String::from("2024-01-31"));
    let got = q.exec(&mut repo, today).unwrap();
    assert_eq!(got.len(), 1);
    assert_eq!(got[0].name, "tea");

    let m = ModCmd {
        id: 1,
        name: None,
        amount: Some(String::from("4")),
        date: None,
        category: None,
        description: None,
        force: None,
    };
    assert_eq!(Commands::Mod(m).exec(&mut repo, today).unwrap()[0].cents, 400);
    assert_eq!(Commands::Rm(RmCmd { id: 1 }).exec(&mut repo, today).unwrap()[0].name, "tea");
    assert_eq!(Commands::Rm(RmCmd { id: 1 }).exec(&mut repo, today), Err(CmdError::Store(RepoError::NotFound(1))));
    assert_eq!(repo.len(), 1);
}
