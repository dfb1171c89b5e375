use please::config::Config;
use please::error::ErrorKind;
use please::script::{
    get_histfile, get_scripts, history_file, BuildFile, Script, ScriptBuilder,
};

#[test]
fn create_config() {
    let config = Config::from_base_dir("/tmp/config");
    assert_eq!(config.state_dir, "/tmp/config/please");
    assert_eq!(config.scripts_dir, "/tmp/config/please/scripts");
    assert_eq!(config.build_file_path, "/tmp/config/please/build.json");
}

#[test]
fn config_joins_after_a_trailing_separator() {
    let config = Config::from_base_dir("/tmp/");
    assert_eq!(config.state_dir, "/tmp/please");
    let config = Config::from_base_dir("");
    assert_eq!(config.state_dir, "please");
    assert_eq!(config.scripts_dir, "please/scripts");
}

#[test]
fn parse_script() {
    let config = Config::from_base_dir("/tmp");
    let script = Script::from_name("test.sh", &config).expect("parse script");
    assert_eq!(script.path(), "/tmp/please/scripts/test.sh");

    let script = Script::from_name("test", &config).expect("parse script");
    assert_eq!(script.path(), "/tmp/please/scripts/test.sh");
}

#[test]
fn give_corrent_string() {
    let config = Config::from_base_dir("/tmp");
    let script = Script::from_name("foobar", &config).unwrap();
    let str = script.to_string();
    assert_eq!(str, "foobar".to_string())
}

#[test]
fn empty_script_name_is_refused() {
    let config = Config::from_base_dir("/tmp");
    assert!(matches!(Script::from_name("", &config), Err(ErrorKind::InvalidInput)));
}

#[test]
fn script_name_drops_directory_and_extension() {
    let config = Config::from_base_dir("/tmp");
    assert_eq!(Script::from_name("a.b", &config).unwrap().script_name(), "a.b");
    assert_eq!(Script::from_name("a.b.sh", &config).unwrap().script_name(), "a.b");
    assert_eq!(Script::from_name(".sh", &config).unwrap().script_name(), ".sh");
    assert_eq!(Script::from_name("dir/tool", &config).unwrap().script_name(), "tool");
    assert_eq!(Script::from_name("/abs/tool.sh", &config).unwrap().path(), "/abs/tool.sh");
    assert_eq!(Script::from_name("héllo", &config).unwrap().script_name(), "héllo");
}

#[test]
fn list_scripts() {
    let config = Config::from_base_dir("/tmp/please2");
    let names = vec!["foo.sh".to_string()];
    let scripts = get_scripts(&config, &names);

    assert_eq!(scripts.len(), 1);

    let script = &scripts[0];
    assert_eq!(script.to_string(), "foo".to_string());
}

#[test]
fn listing_passes_over_empty_names() {
    let config = Config::from_base_dir("/tmp");
    let names = vec!["a.sh".to_string(), String::new(), "b".to_string()];
    let scripts = get_scripts(&config, &names);
    assert_eq!(scripts.len(), 2);
    assert_eq!(scripts[0].path(), "/tmp/please/scripts/a.sh");
    assert_eq!(scripts[1].path(), "/tmp/please/scripts/b.sh");
}

#[test]
fn start_build() {
    let builder = ScriptBuilder::build_new("foo", Config::from_base_dir("/tmp")).unwrap();
    let path = builder.start_build(false).unwrap();

    assert_eq!(builder.get_script_name(), "foo".to_string());
    assert_eq!(path, "/tmp/please/build.json");
}

#[test]
fn start_build_refuses_a_second_build() {
    let builder = ScriptBuilder::build_new("foo", Config::from_base_dir("/tmp")).unwrap();
    assert_eq!(builder.start_build(true), Err(ErrorKind::StateConflict));
}

#[test]
fn build_new_refuses_the_extension() {
    let res = ScriptBuilder::build_new("foo.sh", Config::from_base_dir("/tmp"));
    assert!(matches!(res, Err(ErrorKind::InvalidInput)));
}

#[test]
fn saves_build_file() {
    let build_file = BuildFile::new("test");
    assert_eq!(build_file.script_name, "test");
    assert!(build_file.variables.is_empty());
}

#[test]
fn add_variable() {
    let config = Config::from_base_dir("/tmp/builder");
    let bf = BuildFile { script_name: "foo".to_string(), variables: vec![] };
    let mut builder = ScriptBuilder::load_current(Some(bf), config).unwrap();

    builder.add_var("foo".to_string(), "bar".to_string());
    let (path, bf) = builder.save_replace();

    assert_eq!(path, "/tmp/builder/please/build.json");
    assert_eq!(bf.variables.len(), 1);
    assert_eq!(bf.variables[0].value, "foo");
    assert_eq!(bf.variables[0].expr, "bar");
}

#[test]
fn variables_keep_their_order() {
    let mut builder = ScriptBuilder::build_new("foo", Config::from_base_dir("/tmp")).unwrap();
    builder.add_var("A".to_string(), "echo $A".to_string());
    builder.add_var("B".to_string(), "echo $B".to_string());
    let file = builder.build_file();
    assert_eq!(file.script_name, "foo");
    assert_eq!(file.variables[0].value, "A");
    assert_eq!(file.variables[1].value, "B");
}

#[test]
fn load_current_needs_a_saved_build() {
    let res = ScriptBuilder::load_current(None, Config::from_base_dir("/tmp"));
    assert!(matches!(res, Err(ErrorKind::StateConflict)));
    let bf = BuildFile::new("foo.sh");
    let res = ScriptBuilder::load_current(Some(bf), Config::from_base_dir("/tmp"));
    assert!(matches!(res, Err(ErrorKind::InvalidInput)));
}

#[test]
fn delete_build() {
    let config = Config::from_base_dir("/tmp/builder2");
    let builder = ScriptBuilder::build_new("foo", config).unwrap();
    assert_eq!(builder.delete_build(true), Ok("/tmp/builder2/please/build.json".to_string()));
    assert_eq!(builder.delete_build(false), Err(ErrorKind::StateConflict));
}

#[test]
fn build_gives_path_and_content() {
    let mut builder = ScriptBuilder::build_new("greet", Config::from_base_dir("/tmp")).unwrap();
    builder.add_var("NAME".to_string(), "echo hello $NAME".to_string());
    let hist = ": 1:0;please build greet\n: 2:0;please ask Who?\n: 3:0;date\n: 4:0;please build";
    assert_eq!(
        builder.display_script(hist.to_string()).unwrap(),
        "#!/bin/sh\n\nset -e\n\nread -p \"Who? \" NAME\necho hello $NAME\ndate"
    );
    let built = builder.build(hist.to_string()).unwrap();
    assert_eq!(built.path, "/tmp/please/scripts/greet.sh");
    assert_eq!(
        built.content,
        "#!/bin/sh\n\nset -e\n\nread -p \"Who? \" NAME\necho hello $NAME\ndate"
    );
}

#[test]
fn build_fails_without_enough_variables() {
    let builder = ScriptBuilder::build_new("greet", Config::from_base_dir("/tmp")).unwrap();
    let hist = ": 1:0;please ask Who?".to_string();
    assert_eq!(builder.display_script(hist.clone()), Err(ErrorKind::ParseInconsistency));
    assert!(matches!(builder.build(hist), Err(ErrorKind::ParseInconsistency)));
}

#[test]
fn histfile_comes_from_the_environment_or_the_shell() {
    let s = |t: &str| Some(t.to_string());
    assert_eq!(get_histfile(s("/h/.hist"), None, None), Ok("/h/.hist".to_string()));
    assert_eq!(get_histfile(None, s("/bin/zsh"), s("/home/u")), Ok("/home/u/.zsh_history".to_string()));
    assert_eq!(get_histfile(None, s("/bin/bash"), s("/home/u")), Ok("/home/u/.bash_history".to_string()));
    assert_eq!(get_histfile(None, s("/bin/fish"), s("/home/u")), Err(ErrorKind::MissingResource));
    assert_eq!(get_histfile(None, None, s("/home/u")), Err(ErrorKind::MissingResource));
    assert_eq!(get_histfile(None, s("/bin/zsh"), None), Err(ErrorKind::MissingResource));
}

#[test]
fn config_needs_a_base_directory() {
    assert!(matches!(Config::under(None), Err(ErrorKind::MissingResource)));
    let config = Config::under(Some("/var/state".to_string())).unwrap();
    assert_eq!(config.state_dir, "/var/state/please");
    assert_eq!(config.scripts_dir, "/var/state/please/scripts");
    assert_eq!(config.build_file_path, "/var/state/please/build.json");
}

#[test]
fn located_config_is_laid_out_below_one_directory() {
    match Config::locate() {
        Ok(config) => {
            assert!(config.state_dir.ends_with("please"));
            assert_eq!(config.scripts_dir, format!("{}/scripts", config.state_dir));
            assert_eq!(config.build_file_path, format!("{}/build.json", config.state_dir));
        }
        Err(e) => assert_eq!(e, ErrorKind::MissingResource),
    }
}

#[test]
fn history_file_prefers_histfile() {
    let s = |t: &str| Some(t.to_string());
    assert_eq!(history_file(s("/h/.hist"), s("/bin/zsh")), Ok("/h/.hist".to_string()));
    assert_eq!(history_file(None, None), Err(ErrorKind::MissingResource));
    assert_eq!(history_file(None, s("/bin/fish")), Err(ErrorKind::MissingResource));
    match history_file(None, s("/bin/bash")) {
        Ok(path) => assert!(path.ends_with(".bash_history")),
        Err(e) => assert_eq!(e, ErrorKind::MissingResource),
    }
}
