use gptui::cli::choose_prompt;
use gptui::cli::list_line;
use gptui::cli::parse_yes_no;
use gptui::cli::sorted_names;
use gptui::cli::stands_before;
use gptui::cli::thread_by_index;
use gptui::config::ansi_color;
use gptui::config::Config;
use gptui::config::Prompt;
use gptui::db::Store;
use gptui::error::Error;
use gptui::llm::LlmModel;
use gptui::llm::PromptSetting;
use gptui::message::Message;
use gptui::message::Role;
use gptui::session::Session;
use gptui::session::Thread;

fn persona(label: &str, color: Option<&str>) -> Prompt {
    Prompt::new(
        label,
        "text",
        LlmModel::GPT35Turbo,
        color.map(|c| c.to_string()),
    )
}

fn config_of(prompts: Vec<Prompt>) -> Config {
    Config::new("base16".to_string(), None, None, prompts)
}

#[test]
fn personas_are_found_by_name() {
    let config = config_of(vec![
        persona("Coder", None),
        persona("Cook", Some("Red")),
        persona("Ärztin", None),
        persona("Coder", None),
    ]);
    assert_eq!(config.prompts().len(), 3);
    assert_eq!(config.get_prompt("coder").unwrap().label(), "Coder");
    assert_eq!(config.get_prompt("COOK").unwrap().color(), Some("Red"));
    assert_eq!(config.get_prompt("ärztin").unwrap().label(), "Ärztin");
    assert!(config.get_prompt("co").is_none());
    let found: Vec<&str> = config
        .get_matching_prompts("CO")
        .iter()
        .map(|p| p.label())
        .collect();
    assert_eq!(found, vec!["Coder", "Cook"]);
    assert_eq!(config.get_matching_prompts("").len(), 3);
    assert_eq!(config.get_matching_prompts("x").len(), 0);
    let p = config.get_prompt("cook").unwrap();
    assert_eq!(p.prompt(), "text");
    assert_eq!(p.model(), LlmModel::GPT35Turbo);
    assert_eq!(
        p.setting(),
        PromptSetting {
            label: "Cook".to_string(),
            prompt: "text".to_string(),
            model: LlmModel::GPT35Turbo,
            color: Some("Red".to_string())
        }
    );
    assert!(p.same_as(&persona("Cook", Some("Red"))));
    assert!(!p.same_as(&persona("Cook", Some("red"))));
    let d = Prompt::default();
    assert_eq!((d.label(), d.prompt(), d.color()), ("Assistant", "You are a helpful assistant", None));
}

#[test]
fn colors_are_checked() {
    for name in [
        "black", "red", "green", "yellow", "blue", "magenta", "cyan", "gray", "darkgray",
        "lightred", "lightgreen", "lightyellow", "lightblue", "lightmagenta", "lightcyan", "white",
    ] {
        assert!(ansi_color(name));
    }
    assert!(!ansi_color("Red"));
    assert!(!ansi_color("orange"));
    assert!(!ansi_color(""));
    assert_eq!(
        config_of(vec![persona("a", None), persona("b", Some(" LightBlue ")), persona("c", Some("gray"))])
            .validate(),
        Ok(())
    );
    assert_eq!(
        config_of(vec![
            persona("a", Some("white")),
            persona("Painter", Some("Mauve")),
            persona("c", Some("pink"))
        ])
        .validate(),
        Err(Error::Other(
            "Invalid color 'Mauve' in prompt 'Painter': not a valid ANSI color".to_string()
        ))
    );
}

#[test]
fn settings_of_the_configuration() {
    let c = Config::new(
        "theme".to_string(),
        Some("vi".to_string()),
        Some("MY_KEY".to_string()),
        vec![],
    );
    assert_eq!(c.syntax_theme(), "theme");
    assert_eq!(c.editor(), Some("vi"));
    assert_eq!(c.api_key_var(), "MY_KEY");
    assert_eq!(config_of(vec![]).api_key_var(), "OPENAI_API_KEY");
    assert_eq!(config_of(vec![]).editor(), None);
}

#[test]
fn persona_is_chosen_by_the_beginning_of_its_name() {
    let config = config_of(vec![
        persona("Coder", None),
        persona("cook", None),
        persona("Zoologist", Some("green")),
        persona("Analyst", None),
    ]);
    assert_eq!(choose_prompt(&config, None), Ok(PromptSetting::default()));
    assert_eq!(choose_prompt(&config, Some("z")).unwrap().label, "Zoologist");
    assert_eq!(choose_prompt(&config, Some("COD")).unwrap().label, "Coder");
    assert_eq!(
        choose_prompt(&config, Some("co")),
        Err(Error::CliError(
            "Ambiguous specifier for prompt, 'co' could refer to:\n\t Coder\n\t cook".to_string()
        ))
    );
    assert_eq!(
        choose_prompt(&config, Some("nobody")),
        Err(Error::CliError(
            "No prompt matched 'nobody'. Available prompts are:\n\tAnalyst\n\tCoder\n\tZoologist\n\tcook"
                .to_string()
        ))
    );
}

#[test]
fn names_stand_in_the_order_of_the_dictionary() {
    let v = |s: &str| s.chars().collect::<Vec<char>>();
    let names = ["b", "a", "", "ab", "B", "é", "a", "aa"];
    let sorted: Vec<String> = sorted_names(names.iter().map(|n| v(n)).collect())
        .iter()
        .map(|n| n.iter().collect())
        .collect();
    let mut expected: Vec<String> = names.iter().map(|n| n.to_string()).collect();
    expected.sort();
    assert_eq!(sorted, expected);
    for a in names {
        for b in names {
            assert_eq!(stands_before(&v(a), &v(b)), a <= b, "{a:?} {b:?}");
        }
    }
}

#[test]
fn answers_and_list_lines() {
    for (answer, meaning) in [
        ("", Some(false)),
        ("\n", Some(false)),
        ("n\n", Some(false)),
        ("N", Some(false)),
        ("y\r\n", Some(true)),
        ("Y  ", Some(true)),
        (" y", None),
        ("yes", None),
        ("no", None),
    ] {
        assert_eq!(parse_yes_no(answer), meaning, "{answer:?}");
    }
    assert_eq!(list_line(0, "12:00 hello"), "(1) 12:00 hello");
    assert_eq!(list_line(41, ""), "(42) ");
}

#[test]
fn threads_are_named_by_their_place_in_the_list() {
    let mut session = Session::new(Store::new());
    for (id, at) in [(30u128, 300i64), (10, 100), (20, 200)] {
        session.put_thread(Thread::new(
            vec![
                Message::new(Role::System, "p", 0),
                Message::new(Role::User, "q", at),
            ],
            LlmModel::GPT4,
            id,
        ));
    }
    session.put_thread(Thread::new(vec![], LlmModel::GPT4, 5));
    assert_eq!(thread_by_index(&session, 1), Some(10));
    assert_eq!(thread_by_index(&session, 2), Some(20));
    assert_eq!(thread_by_index(&session, 3), Some(30));
    for bad in [0, -1, 4, i64::MIN, i64::MAX] {
        assert_eq!(thread_by_index(&session, bad), None);
    }
}
