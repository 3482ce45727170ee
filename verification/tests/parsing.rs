use rake::error::RakeError;
use rake::parser::Rakefile;

fn cv(s: &str) -> Vec<char> {
    s.chars().collect()
}

fn parse(text: &str) -> Result<Rakefile, RakeError> {
    Rakefile::parse("Rakefile", text)
}

#[test]
fn basic_build_parses() {
    let rf = parse("hello: hello.c\n    cc -o $@ $<\n").unwrap();
    assert_eq!(rf.jobs.jobs.len(), 1);
    let j = &rf.jobs.jobs[0];
    assert_eq!(j.target, cv("hello"));
    assert_eq!(j.deps, vec![cv("hello.c")]);
    assert_eq!(j.recipe, vec![cv("cc -o hello hello.c")]);
    assert!(!j.phony);
    assert!(j.echo);
    assert_eq!(j.loc.1, 1);
    assert!(rf.warnings.is_empty());
}

#[test]
fn override_warns_and_keeps_second() {
    let rf = parse("foo:\n    echo one\nfoo:\n    echo two\n").unwrap();
    assert_eq!(rf.jobs.jobs.len(), 1);
    assert_eq!(rf.jobs.jobs[0].recipe, vec![cv("echo two")]);
    assert_eq!(rf.warnings.len(), 1);
    let w = &rf.warnings[0];
    assert_eq!(w.target, cv("foo"));
    assert_eq!(w.new_loc.1, 3);
    assert_eq!(w.old_loc.1, 1);
}

#[test]
fn phony_promotion() {
    let rf = parse("clean:\n    rm -rf build\n.PHONY: clean\n").unwrap();
    assert_eq!(rf.jobs.jobs.len(), 1);
    let j = &rf.jobs.jobs[0];
    assert_eq!(j.target, cv("clean"));
    assert!(j.phony);
    assert!(j.echo);
    assert_eq!(j.recipe, vec![cv("rm -rf build")]);
}

#[test]
fn phony_directive_before_job_still_promotes() {
    let rf = parse(".PHONY: clean\nclean:\n    rm -rf build\n").unwrap();
    assert_eq!(rf.jobs.jobs.len(), 1);
    assert!(rf.jobs.jobs[0].phony);
}

#[test]
fn silent_directive_clears_echo() {
    let rf = parse("a:\n    x\n.SILENT: a\n").unwrap();
    assert!(!rf.jobs.jobs[0].echo);
    assert!(!rf.jobs.jobs[0].phony);
}

#[test]
fn always_promotes_like_phony() {
    let rf = parse("a:\n    x\n.ALWAYS: a\n").unwrap();
    assert!(rf.jobs.jobs[0].phony);
}

#[test]
fn variable_expansion_in_recipe() {
    let rf = parse("CC = cc\nFLAGS = -O2\na: a.c\n    $(CC) $(FLAGS) -o $@ $<\n").unwrap();
    assert_eq!(rf.jobs.jobs[0].recipe, vec![cv("cc -O2 -o a a.c")]);
}

#[test]
fn variable_redeclaration_resolved_at_declaration_time() {
    let rf = parse("A = 1\nB = $(A)\nA = 2\nc:\n    echo $(A) $(B)\n").unwrap();
    assert_eq!(rf.jobs.jobs[0].recipe, vec![cv("echo 2 1")]);
}

#[test]
fn one_to_three_spaces_is_error() {
    for (pad, w) in [(" ", 1), ("  ", 2), ("   ", 3)] {
        let text = format!("a:\n{}x\n", pad);
        match parse(&text) {
            Err(RakeError::InvalidIndentation(info, got)) => {
                assert_eq!(info.1, 2);
                assert_eq!(got, w);
            },
            _ => panic!("expected indentation error for {} spaces", w),
        }
    }
}

#[test]
fn four_spaces_accepted() {
    let rf = parse("a:\n    x\n").unwrap();
    assert_eq!(rf.jobs.jobs[0].recipe, vec![cv("x")]);
}

#[test]
fn tab_accepted() {
    let rf = parse("a:\n\tx\n").unwrap();
    assert_eq!(rf.jobs.jobs[0].recipe, vec![cv("x")]);
}

#[test]
fn five_spaces_is_error() {
    match parse("a:\n     x\n") {
        Err(RakeError::InvalidIndentation(info, got)) => {
            assert_eq!(info.1, 2);
            assert_eq!(got, 5);
        },
        _ => panic!("expected indentation error"),
    }
}

#[test]
fn whitespace_only_body_line_with_two_spaces_is_error() {
    match parse("a:\n    x\n  \n") {
        Err(RakeError::InvalidIndentation(info, got)) => {
            assert_eq!(info.1, 3);
            assert_eq!(got, 2);
        },
        _ => panic!("expected indentation error"),
    }
}

#[test]
fn dep_index_at_length_is_error() {
    match parse("a: d0 d1\n    cp $d[2] x\n") {
        Err(RakeError::DepsIndexOutOfBounds(info, len)) => {
            assert_eq!(info.1, 2);
            assert_eq!(len, 2);
        },
        _ => panic!("expected index error"),
    }
}

#[test]
fn dep_index_last_is_accepted() {
    let rf = parse("a: d0 d1\n    cp $d[1] x\n").unwrap();
    assert_eq!(rf.jobs.jobs[0].recipe, vec![cv("cp d1 x")]);
}

#[test]
fn malformed_dep_index_reads_as_zero() {
    let rf = parse("a: d0 d1\n    cp $d[x] y\n").unwrap();
    assert_eq!(rf.jobs.jobs[0].recipe, vec![cv("cp d0 y")]);
}

#[test]
fn dep_symbol_without_deps_is_error() {
    match parse("a:\n    cc $d\n") {
        Err(RakeError::DepsSSwithoutDeps(info)) => assert_eq!(info.1, 2),
        _ => panic!("expected missing-deps error"),
    }
}

#[test]
fn all_deps_symbols_join_with_spaces() {
    let rf = parse("a: x y z\n    echo $ds | $^\n").unwrap();
    assert_eq!(rf.jobs.jobs[0].recipe, vec![cv("echo x y z | x y z")]);
}

#[test]
fn rake_target_symbol_expands() {
    let rf = parse("a: d\n    touch $t\n").unwrap();
    assert_eq!(rf.jobs.jobs[0].recipe, vec![cv("touch a")]);
}

#[test]
fn empty_target_is_error() {
    match parse(": x\n    y\n") {
        Err(RakeError::NoTarget(info)) => assert_eq!(info.1, 1),
        _ => panic!("expected missing-target error"),
    }
}

#[test]
fn multiple_variable_names_is_error() {
    match parse("A B = c\n") {
        Err(RakeError::MultipleNames(info)) => assert_eq!(info.1, 1),
        _ => panic!("expected multiple-names error"),
    }
}

#[test]
fn undefined_reference_in_declaration_is_error() {
    match parse("A = $(X)\n") {
        Err(RakeError::InvalidValue(info, v)) => {
            assert_eq!(info.1, 1);
            assert_eq!(v, cv("$(X)"));
        },
        _ => panic!("expected invalid-value error"),
    }
}

#[test]
fn undefined_reference_in_recipe_is_error() {
    match parse("a:\n    echo $(X)\n") {
        Err(RakeError::InvalidValue(info, v)) => {
            assert_eq!(info.1, 2);
            assert_eq!(v, cv("X"));
        },
        _ => panic!("expected invalid-value error"),
    }
}

#[test]
fn unclassifiable_line_is_refused() {
    assert!(matches!(parse("garbage line\n"), Err(RakeError::InvalidScheisse)));
}

#[test]
fn comments_and_blanks_are_skipped() {
    let rf = parse("# header\n\na:\n# inside\n    x\n\n    y\nb:\n").unwrap();
    assert_eq!(rf.jobs.jobs.len(), 2);
    assert_eq!(rf.jobs.jobs[0].recipe, vec![cv("x"), cv("y")]);
    assert_eq!(rf.jobs.jobs[1].target, cv("b"));
}

#[test]
fn body_ends_at_unindented_line() {
    let rf = parse("a:\n    x\nb:\n    y\n").unwrap();
    assert_eq!(rf.jobs.jobs.len(), 2);
    assert_eq!(rf.jobs.jobs[0].recipe, vec![cv("x")]);
    assert_eq!(rf.jobs.jobs[1].recipe, vec![cv("y")]);
}

#[test]
fn crlf_lines_are_stripped() {
    let rf = parse("a:\r\n    x\r\n").unwrap();
    assert_eq!(rf.jobs.jobs[0].recipe, vec![cv("x")]);
}

#[test]
fn signature_line_expands_variables() {
    let rf = parse("T = out\n$(T): in\n    touch $@\n").unwrap();
    assert_eq!(rf.jobs.jobs[0].target, cv("out"));
    assert_eq!(rf.jobs.jobs[0].recipe, vec![cv("touch out")]);
}

#[test]
fn no_substitution_token_remains_in_recipes() {
    let rf = parse(
        "V = w\nall: a b c\n    $@ $t $d $< $ds $^ $d[1] $(V)\n    plain text\n",
    ).unwrap();
    assert_eq!(
        rf.jobs.jobs[0].recipe,
        vec![cv("all all a a a b c a b c b w"), cv("plain text")]
    );
    for line in &rf.jobs.jobs[0].recipe {
        assert!(!line.contains(&'$'));
    }
}

#[test]
fn substitution_is_the_per_symbol_text() {
    // deps = [a, b, c]: every symbol is replaced by exactly its text.
    let rf = parse("t: a b c\n    X $@ Y $ds Z $d W $d[2] V\n").unwrap();
    assert_eq!(rf.jobs.jobs[0].recipe, vec![cv("X t Y a b c Z a W c V")]);
}

#[test]
fn target_lookup_is_consistent_after_overrides() {
    let rf = parse("a:\n    one\nb:\n    two\na:\n    three\n").unwrap();
    // Lookup by target returns the index of the last inserted job for
    // that target; every stored job is found at its own index.
    for (i, job) in rf.jobs.jobs.iter().enumerate() {
        assert_eq!(rf.jobs.find_job_by_target(&job.target), Some(i));
    }
    let ia = rf.jobs.find_job_by_target(&cv("a")).unwrap();
    assert_eq!(rf.jobs.jobs[ia].recipe, vec![cv("three")]);
}

#[test]
fn empty_file_parses_to_empty_store() {
    let rf = parse("").unwrap();
    assert!(rf.jobs.jobs.is_empty());
    assert!(rf.warnings.is_empty());
}

#[test]
fn job_with_empty_body_is_kept() {
    let rf = parse("a: b.c\n").unwrap();
    assert_eq!(rf.jobs.jobs.len(), 1);
    assert!(rf.jobs.jobs[0].recipe.is_empty());
}

#[test]
fn four_space_blank_line_stores_an_empty_recipe_line() {
    let rf = parse("a:\n    \n    x\n").unwrap();
    assert_eq!(rf.jobs.jobs[0].recipe, vec![cv(""), cv("x")]);
}

#[test]
fn pretty_path_keeps_two_separators() {
    assert_eq!(Rakefile::pretty_path(&cv("/a/b/c/d")), cv("b/c/d"));
    assert_eq!(Rakefile::pretty_path(&cv("short")), cv("short"));
    assert_eq!(Rakefile::pretty_path(&cv("a/b")), cv("a/b"));
}
