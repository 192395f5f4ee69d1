use query_tables::conf::{AppConf, DAGConf, LogConf};
use query_tables::{App, Item, Key, QueryFile};

fn file(name: &str, text: &str) -> QueryFile {
    QueryFile { file_name: name.to_string(), text: text.to_string() }
}

fn list_of(count: usize) -> App {
    let files: Vec<QueryFile> =
        (0..count).map(|i| file(&format!("q{}.sql", i), "select 1 from t")).collect();
    App::new(&files)
}

#[test]
fn one_file_gives_one_row() {
    let app = App::new(&vec![file("daily.sql", "select * from orders")]);
    assert_eq!(app.items().len(), 1);
    assert_eq!(app.items()[0].file_name, "daily.sql");
    assert_eq!(app.items()[0].tables, vec!["orders".to_string()]);
    assert_eq!(app.selected(), None);
}

#[test]
fn rows_keep_the_order_of_the_files() {
    let app = App::new(&vec![
        file("b.sql", "SELECT * FROM Users JOIN orders ON x"),
        file("a.sql", ""),
        file("c.sql", "select a from Foo; select b from bar; select c from foo"),
    ]);
    let names: Vec<&str> = app.items().iter().map(|i| i.file_name.as_str()).collect();
    assert_eq!(names, vec!["b.sql", "a.sql", "c.sql"]);
    assert_eq!(app.items()[0].tables, vec!["users".to_string()]);
    assert!(app.items()[1].tables.is_empty());
    assert_eq!(app.items()[2].tables, vec!["foo".to_string(), "bar".to_string()]);
}

#[test]
fn no_files_give_an_empty_list() {
    let app = App::new(&Vec::new());
    assert!(app.items().is_empty());
    assert_eq!(app.selected(), None);
}

#[test]
fn first_step_down_selects_the_first_row() {
    for count in 1..5 {
        let mut app = list_of(count);
        app.next();
        assert_eq!(app.selected(), Some(0));
    }
}

#[test]
fn first_step_up_selects_the_first_row() {
    for count in 1..5 {
        let mut app = list_of(count);
        app.previous();
        assert_eq!(app.selected(), Some(0));
    }
}

#[test]
fn step_down_from_the_last_row_leads_to_the_first() {
    let mut app = list_of(3);
    app.next();
    app.next();
    assert_eq!(app.selected(), Some(1));
    app.next();
    assert_eq!(app.selected(), Some(2));
    app.next();
    assert_eq!(app.selected(), Some(0));
}

#[test]
fn step_up_from_the_first_row_leads_to_the_last() {
    let mut app = list_of(3);
    app.next();
    assert_eq!(app.selected(), Some(0));
    app.previous();
    assert_eq!(app.selected(), Some(2));
    app.previous();
    assert_eq!(app.selected(), Some(1));
    app.previous();
    assert_eq!(app.selected(), Some(0));
}

#[test]
fn a_single_row_stays_selected() {
    let mut app = list_of(1);
    app.next();
    app.next();
    assert_eq!(app.selected(), Some(0));
    app.previous();
    assert_eq!(app.selected(), Some(0));
}

#[test]
fn an_empty_list_never_selects() {
    let mut app = list_of(0);
    for _ in 0..3 {
        app.next();
        assert_eq!(app.selected(), None);
        app.previous();
        assert_eq!(app.selected(), None);
    }
    assert!(!app.on_key(Key::Down));
    assert!(!app.on_key(Key::Up));
    assert_eq!(app.selected(), None);
}

#[test]
fn the_selection_is_always_a_row() {
    let mut app = list_of(4);
    let keys = [Key::Down, Key::Down, Key::Up, Key::Up, Key::Up, Key::Down, Key::Other];
    for round in 0..20 {
        app.on_key(keys[round % keys.len()]);
        assert!(app.selected().unwrap() < app.items().len());
    }
}

#[test]
fn keys_move_the_selection_or_end_the_session() {
    let mut app = list_of(3);
    assert!(!app.on_key(Key::Down));
    assert_eq!(app.selected(), Some(0));
    assert!(!app.on_key(Key::Down));
    assert_eq!(app.selected(), Some(1));
    assert!(!app.on_key(Key::Up));
    assert_eq!(app.selected(), Some(0));
    assert!(!app.on_key(Key::Other));
    assert_eq!(app.selected(), Some(0));
    assert!(!app.on_key(Key::Char('x')));
    assert!(!app.on_key(Key::Char('Q')));
    assert_eq!(app.selected(), Some(0));
    assert!(app.on_key(Key::Char('q')));
    assert_eq!(app.selected(), Some(0));
    assert_eq!(app.items().len(), 3);
}

#[test]
fn item_holds_what_it_was_given() {
    let item = Item::new("x.sql".to_string(), vec!["b".to_string(), "a".to_string()]);
    assert_eq!(item.file_name, "x.sql");
    assert_eq!(item.tables, vec!["b".to_string(), "a".to_string()]);
}

#[test]
fn tables_are_joined_by_line_breaks() {
    let names = |n: &[&str]| n.iter().map(|s| s.to_string()).collect::<Vec<String>>();
    assert_eq!(Item::new("x".to_string(), names(&[])).joined_tables(), "");
    assert_eq!(Item::new("x".to_string(), names(&["a"])).joined_tables(), "a");
    assert_eq!(Item::new("x".to_string(), names(&["a", "bc"])).joined_tables(), "a\nbc");
    assert_eq!(Item::new("x".to_string(), names(&["a", "", "c"])).joined_tables(), "a\n\nc");
    assert_eq!(Item::new("x".to_string(), names(&[""])).joined_tables(), "");
    let sample = names(&["users", "orders", "order_lines"]);
    assert_eq!(Item::new("x".to_string(), sample.clone()).joined_tables(), sample.join("\n"));
}

#[test]
fn row_height_counts_the_line_breaks() {
    let names = |n: &[&str]| n.iter().map(|s| s.to_string()).collect::<Vec<String>>();
    assert_eq!(Item::new("x".to_string(), names(&[])).row_height(), 0);
    assert_eq!(Item::new("x".to_string(), names(&["a"])).row_height(), 0);
    assert_eq!(Item::new("x".to_string(), names(&["a", "b"])).row_height(), 1);
    assert_eq!(Item::new("x".to_string(), names(&["a", "b", "c", "d"])).row_height(), 3);
    assert_eq!(Item::new("x".to_string(), names(&["a\nb", "c"])).row_height(), 2);
}

#[test]
fn directory_is_folder_slash_name_slash() {
    let dag = DAGConf { name: "daily".to_string(), folder: "/srv/dags".to_string() };
    assert_eq!(dag.directory(), "/srv/dags/daily/");
    let bare = DAGConf { name: String::new(), folder: String::new() };
    assert_eq!(bare.directory(), "//");
    let conf = AppConf {
        dag: DAGConf { name: "n".to_string(), folder: "f/".to_string() },
        log: LogConf { level: "debug".to_string() },
    };
    assert_eq!(conf.dag.directory(), "f//n/");
    assert_eq!(conf.clone().log.level, "debug");
}
