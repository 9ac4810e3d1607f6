use recall::config::{Config, Task};
use recall::session::generate_sub_root_dir;

fn strings(words: &[&str]) -> Vec<String> {
    words.iter().map(|w| w.to_string()).collect()
}

fn root() -> Option<String> {
    Some(String::from("./test/test_dir"))
}

#[test]
fn not_enough_program_args() {
    let args: [String; 2] = [String::from("recall"), String::from("-n")];

    match Config::new(&args, root(), None) {
        Ok(_) => assert!(false, "Config should require at least two arguments."),
        Err(_) => assert!(true),
    }
}

#[test]
fn not_enough_task_args() {
    let create_args: [String; 2] = [String::from("recall"), String::from("-n")];

    match Config::new(&create_args, root(), None) {
        Ok(_) => assert!(false, "-n flag should require at least two arguments."),
        Err(_) => assert!(true),
    }
}

#[test]
fn config_path_parts_not_include_flag() {
    let args: [String; 4] = [
        String::from("recall"),
        String::from("-n"),
        String::from("tmux"),
        String::from("layouts"),
    ];

    let config = Config::new(&args, root(), None).unwrap();
    assert!(config.path_parts.len() == 2);
    assert!(!config.path_parts.contains(&args[0]));
    assert!(!config.path_parts.contains(&args[1]));
    assert!(config.path_parts.contains(&args[2]));
    assert!(config.path_parts.contains(&args[3]));
}

#[test]
fn path_only_uses_args() {
    let args: [String; 3] = [
        String::from("recall"),
        String::from("tmux"),
        String::from("layouts"),
    ];

    let config = Config::new(&args, root(), None).unwrap();
    let sub_root_dir = generate_sub_root_dir(&config);
    assert!(sub_root_dir == "./test/test_dir/tmux/layouts");
}

#[test]
fn generate_sub_root_dir_accepts_zero() {
    let args: [String; 2] = [String::from("recall"), String::from("-l")];

    let config = Config::new(&args, root(), None).unwrap();
    let sub_root_dir = generate_sub_root_dir(&config);
    println!("{}", sub_root_dir);
    assert!(sub_root_dir == "./test/test_dir/");
}

#[test]
fn generate_sub_root_dir_accepts_multiple() {
    let args: [String; 4] = [
        String::from("recall"),
        String::from("-l"),
        String::from("rust"),
        String::from("release"),
    ];

    let config = Config::new(&args, root(), None).unwrap();
    let sub_root_dir = generate_sub_root_dir(&config);
    assert!(sub_root_dir == "./test/test_dir/rust/release");
}

#[test]
fn program_name_alone_is_not_enough() {
    let args = strings(&["recall"]);
    assert_eq!(Config::new(&args, root(), None), Err("Not enough arguments."));
    let none: Vec<String> = Vec::new();
    assert_eq!(Config::new(&none, root(), None), Err("Not enough arguments."));
}

#[test]
fn each_flag_names_its_task() {
    let cases = [
        ("-n", Task::New),
        ("-e", Task::Edit),
        ("-d", Task::Delete),
        ("-l", Task::List),
        ("-h", Task::Help),
    ];
    for (flag, task) in cases {
        let args = strings(&["recall", flag, "rust"]);
        let config = Config::new(&args, root(), None).unwrap();
        assert_eq!(config.task, task);
        assert_eq!(config.path_parts, strings(&["rust"]));
    }
}

#[test]
fn anything_else_is_a_note_to_read() {
    let args = strings(&["recall", "rust", "release"]);
    let config = Config::new(&args, root(), None).unwrap();
    assert_eq!(config.task, Task::Read);
    assert_eq!(config.path_parts, strings(&["rust", "release"]));

    let args = strings(&["recall", "-x"]);
    let config = Config::new(&args, root(), None).unwrap();
    assert_eq!(config.task, Task::Read);
    assert_eq!(config.path_parts, strings(&["-x"]));
}

#[test]
fn tasks_that_need_a_note_are_refused_without_one() {
    for flag in ["-n", "-e", "-d"] {
        let args = strings(&["recall", flag]);
        assert_eq!(Config::new(&args, root(), None), Err("Not enough arguments."));
    }
}

#[test]
fn help_and_list_need_no_note() {
    for (flag, task) in [("-h", Task::Help), ("-l", Task::List)] {
        let args = strings(&["recall", flag]);
        let config = Config::new(&args, root(), None).unwrap();
        assert_eq!(config.task, task);
        assert!(config.path_parts.is_empty());
    }
}

#[test]
fn editor_defaults_to_vim() {
    let args = strings(&["recall", "rust"]);
    let config = Config::new(&args, root(), None).unwrap();
    assert_eq!(config.editor, "vim");
    assert_eq!(config.recall_root_dir, "./test/test_dir");

    let config = Config::new(&args, root(), Some(String::from("nano"))).unwrap();
    assert_eq!(config.editor, "nano");
}

#[test]
fn missing_root_is_an_error() {
    let args = strings(&["recall", "rust"]);
    assert_eq!(Config::new(&args, None, None), Err("RECALL_DIR is not set."));
}

#[test]
fn command_line_is_checked_before_the_root() {
    let args = strings(&["recall", "-n"]);
    assert_eq!(Config::new(&args, None, None), Err("Not enough arguments."));
}
