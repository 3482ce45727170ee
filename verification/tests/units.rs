use rake::ct::Comptime;
use rake::error::{Info, RakeError};
use rake::flag::Flag;
use rake::ss::SSymbol;
use rake::text::{
    chars_of, dec_str_exec, join_ws_exec, parse_index_exec, replace_all_exec, split_ws_exec, trim,
};
use rake::vars::VarStore;

fn cv(s: &str) -> Vec<char> {
    s.chars().collect()
}

#[test]
fn symbol_texts_round_trip() {
    let all = [
        (SSymbol::MakeTarget, "$@"),
        (SSymbol::RakeTarget, "$t"),
        (SSymbol::MakeDep, "$d"),
        (SSymbol::RakeDep, "$<"),
        (SSymbol::MakeDeps, "$ds"),
        (SSymbol::RakeDeps, "$^"),
        (SSymbol::MakePhony, ".PHONY"),
        (SSymbol::RakePhony, ".ALWAYS"),
        (SSymbol::MakeSilent, ".SILENT"),
    ];
    for (sym, text) in all {
        assert_eq!(sym.to_string(), cv(text));
        assert!(matches!(SSymbol::try_from(&cv(text)), Ok(s) if s == sym));
    }
    assert!(SSymbol::try_from(&cv("$x")).is_err());
    assert!(SSymbol::try_from(&cv("")).is_err());
}

#[test]
fn flag_recognition() {
    assert!(matches!(Flag::try_from(("-k".to_string(), None)), Ok(Flag::Keepgoing)));
    assert!(matches!(Flag::try_from(("-s".to_string(), None)), Ok(Flag::Silent)));
    match Flag::try_from(("-C".to_string(), Some("dir".to_string()))) {
        Ok(Flag::Cd(d)) => assert_eq!(d, "dir"),
        _ => panic!("expected a directory flag"),
    }
}

#[test]
fn flag_misuse() {
    match Flag::try_from(("-C".to_string(), None)) {
        Err(RakeError::InvalidUseOfFlag(f, args)) => {
            assert_eq!(f, "-C");
            assert_eq!(args, vec!["".to_string()]);
        },
        _ => panic!("expected a flag misuse"),
    }
    match Flag::try_from(("-C".to_string(), Some("-k".to_string()))) {
        Err(RakeError::InvalidUseOfFlag(f, args)) => {
            assert_eq!(f, "-C");
            assert_eq!(args, vec!["-k".to_string()]);
        },
        _ => panic!("expected a flag misuse"),
    }
    assert!(matches!(
        Flag::try_from(("-x".to_string(), None)),
        Err(RakeError::InvalidScheisse)
    ));
}

#[test]
fn flag_rendering() {
    assert_eq!(Flag::Keepgoing.to_string(), cv("-k"));
    assert_eq!(Flag::Silent.to_string(), cv("-s"));
    assert_eq!(Flag::Cd("dir".to_string()).to_string(), cv("-C dir"));
}

#[test]
fn invocation_parsing() {
    let args = vec![
        "-k".to_string(),
        "build".to_string(),
        "-C".to_string(),
        "proj".to_string(),
        "build".to_string(),
        "-s".to_string(),
        "test".to_string(),
    ];
    let ct = Comptime::new(&args).unwrap();
    assert!(ct.cfg.keepgoing);
    assert!(!ct.cfg.echo);
    assert_eq!(ct.rcfg.if_cd(), Some("proj".to_string()));
    assert_eq!(ct.potential_jobs, vec![cv("build"), cv("test")]);
}

#[test]
fn invocation_rejects_flag_shaped_directory() {
    let args = vec!["-C".to_string(), "-k".to_string()];
    match Comptime::new(&args) {
        Err(RakeError::InvalidUseOfFlag(f, args)) => {
            assert_eq!(f, "-C");
            assert_eq!(args, vec!["-k".to_string()]);
        },
        _ => panic!("expected a flag misuse"),
    }
}

#[test]
fn invocation_missing_directory() {
    let args = vec!["-C".to_string()];
    assert!(matches!(Comptime::new(&args), Err(RakeError::InvalidUseOfFlag(..))));
}

#[test]
fn define_and_expand() {
    let mut vars = VarStore::new();
    let info = Info("f".to_string(), 1);
    vars.define(cv("A"), cv("one"), info).unwrap();
    let info = Info("f".to_string(), 2);
    vars.define(cv("B"), cv("$(A)"), info).unwrap();
    let info = Info("f".to_string(), 3);
    let out = vars.expand(&cv("x $(A) y $(B) z"), &info).unwrap();
    assert_eq!(out, cv("x one y one z"));
}

#[test]
fn define_twice_same_value_leaves_same_state() {
    let mut a = VarStore::new();
    let mut b = VarStore::new();
    a.define(cv("x"), cv("v"), Info("f".to_string(), 1)).unwrap();
    b.define(cv("x"), cv("v"), Info("f".to_string(), 1)).unwrap();
    b.define(cv("x"), cv("v"), Info("f".to_string(), 2)).unwrap();
    assert_eq!(a.get(&cv("x")), Some(&cv("v")));
    assert_eq!(b.get(&cv("x")), Some(&cv("v")));
    let info = Info("f".to_string(), 3);
    assert_eq!(a.expand(&cv("$(x)"), &info).unwrap(), b.expand(&cv("$(x)"), &info).unwrap());
}

#[test]
fn define_rejects_multiword_names() {
    let mut vars = VarStore::new();
    let r = vars.define(cv("two words"), cv("v"), Info("f".to_string(), 1));
    assert!(matches!(r, Err(RakeError::MultipleNames(_))));
}

#[test]
fn expand_fails_on_undefined_name() {
    let vars = VarStore::new();
    let info = Info("f".to_string(), 9);
    match vars.expand(&cv("a $(gone) b"), &info) {
        Err(RakeError::InvalidValue(i, n)) => {
            assert_eq!(i.1, 9);
            assert_eq!(n, cv("gone"));
        },
        _ => panic!("expected an invalid value"),
    }
}

#[test]
fn replace_all_is_single_pass() {
    let out = replace_all_exec(&cv("aaa"), &cv("aa"), &cv("b"));
    assert_eq!(out, cv("ba"));
    let out = replace_all_exec(&cv("x$@y$@"), &cv("$@"), &cv("T"));
    assert_eq!(out, cv("xTyT"));
}

#[test]
fn trim_and_split() {
    assert_eq!(trim(&cv("  a b \t")), cv("a b"));
    assert_eq!(trim(&cv("   ")), cv(""));
    assert_eq!(split_ws_exec(&cv(" a  bb\tc ")), vec![cv("a"), cv("bb"), cv("c")]);
    assert_eq!(split_ws_exec(&cv("")), Vec::<Vec<char>>::new());
    assert_eq!(join_ws_exec(&vec![cv("a"), cv("bb"), cv("c")]), cv("a bb c"));
}

#[test]
fn index_parsing() {
    assert_eq!(parse_index_exec(&cv("12")), 12);
    assert_eq!(parse_index_exec(&cv("0")), 0);
    assert_eq!(parse_index_exec(&cv("")), 0);
    assert_eq!(parse_index_exec(&cv("1x")), 0);
    assert_eq!(parse_index_exec(&cv("99999999999999999999999999")), 0);
}

#[test]
fn decimal_rendering() {
    assert_eq!(dec_str_exec(0), cv("0"));
    assert_eq!(dec_str_exec(42), cv("42"));
    assert_eq!(dec_str_exec(1005), cv("1005"));
}

#[test]
fn characters_of_strings() {
    assert_eq!(chars_of("abc"), vec!['a', 'b', 'c']);
    assert_eq!(chars_of(""), Vec::<char>::new());
}

#[test]
fn error_messages_render() {
    let m = RakeError::NoTarget(Info("f".to_string(), 3)).message();
    assert_eq!(m, cv("f:3: Target is mandatory"));
    let m = RakeError::InvalidIndentation(Info("f".to_string(), 2), 3).message();
    assert_eq!(m, cv("f:2: Invalid indentation, expected: 4, got: 3"));
    let m = RakeError::InvalidDependency(Info("f".to_string(), 7), cv("dep")).message();
    assert_eq!(
        m,
        cv("f:7: Dependency: `dep` is neither a defined job, nor an existing file, nor a directory")
    );
    let m = RakeError::InvalidUseOfFlag("-C".to_string(), vec![]).message();
    assert_eq!(m, cv("Invalid use of flag: `-C`, arg: [EMPTY]"));
    let m = RakeError::FailedToExecute(Info("f".to_string(), 1), cv("boom")).message();
    assert_eq!(m, cv("f:1: Failed to execute job:\nboom"));
    let m = RakeError::InvalidValue(Info("f".to_string(), 5), cv("$(X)")).message();
    assert_eq!(m, cv("f:5: Invalid value: $(X)"));
}
