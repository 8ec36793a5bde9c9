use rudric::crypto::Key;
use rudric::error::VaultError;
use rudric::renv::{replace_template_vars, Renv, Variable};
use rudric::secret::create;
use rudric::shell_type::ShellType;
use rudric::store::Vault;

fn setup() -> (Vault, Key) {
    let key = Key::generate();
    let mut db = Vault::new();
    create(&mut db, &key, "db-pass", "s3cr3t", None).unwrap();
    create(&mut db, &key, "user", "  admin\n", None).unwrap();
    (db, key)
}

#[test]
fn placeholder_resolves_and_renders_for_posix() {
    let (db, key) = setup();
    let (renv, errors) = Renv::load(&db, &key, "FOO={{db-pass}}");
    assert!(errors.is_empty());
    assert_eq!(renv.variables.len(), 1);
    assert_eq!(renv.variables[0].name, "FOO");
    assert_eq!(renv.variables[0].value, "s3cr3t");
    assert_eq!(renv.to_shell(ShellType::Bash), "export FOO='s3cr3t'\n");
}

#[test]
fn missing_secret_drops_only_its_line() {
    let (db, key) = setup();
    let text = "A=1\nB={{nope}}\nC={{db-pass}}";
    let (renv, errors) = Renv::load(&db, &key, text);
    let names: Vec<&str> = renv.variables.iter().map(|v| v.name.as_str()).collect();
    assert_eq!(names, vec!["A", "C"]);
    assert_eq!(errors.len(), 1);
    assert_eq!(errors[0].line, 2);
    assert_eq!(errors[0].error, VaultError::NotFound);
    assert_eq!(errors[0].secret, Some("nope".to_string()));
}

#[test]
fn comments_blanks_and_bad_lines() {
    let (db, key) = setup();
    let text = "# comment\n\n   \nBAD LINE\nX=a=b\n  Y = 2\nZ=ok\r\n=v\n";
    let (renv, errors) = Renv::load(&db, &key, text);
    assert_eq!(renv.variables.len(), 1);
    assert_eq!(renv.variables[0].name, "Z");
    assert_eq!(renv.variables[0].value, "ok");
    let lines: Vec<usize> = errors.iter().map(|e| e.line).collect();
    assert_eq!(lines, vec![4, 5, 6, 8]);
    assert!(errors.iter().all(|e| e.error == VaultError::ParseError));
    assert!(errors.iter().all(|e| e.secret.is_none()));
}

#[test]
fn several_placeholders_and_trimmed_values() {
    let (db, key) = setup();
    let v = replace_template_vars(&db, &key, "{{user}}:{{db-pass}}@host/{x}").unwrap();
    assert_eq!(v, "admin:s3cr3t@host/{x}");
    assert_eq!(replace_template_vars(&db, &key, "{{}}").unwrap(), "{{}}");
    assert_eq!(
        replace_template_vars(&db, &key, "x{{nope}}{{db-pass}}").err(),
        Some((VaultError::NotFound, "nope".to_string()))
    );
}

#[test]
fn wrong_key_reports_decryption_failure() {
    let (db, _) = setup();
    let (renv, errors) = Renv::load(&db, &Key::generate(), "P={{db-pass}}\nQ=plain");
    assert_eq!(renv.variables.len(), 1);
    assert_eq!(errors[0].line, 1);
    assert_eq!(errors[0].error, VaultError::DecryptionFailed);
}

#[test]
fn variable_from_string() {
    let v = Variable::from_string("NAME_1=some value").unwrap();
    assert_eq!(v.name, "NAME_1");
    assert_eq!(v.value, "some value");
    let e = Variable::from_string("EMPTY=").unwrap();
    assert_eq!(e.value, "");
    assert_eq!(Variable::from_string("A-B=1").err(), Some(VaultError::ParseError));
    assert_eq!(Variable::from_string("novalue").err(), Some(VaultError::ParseError));
    assert_eq!(Variable::from_string("A=b=c").err(), Some(VaultError::ParseError));
}

#[test]
fn shell_formats() {
    let renv = Renv {
        variables: vec![
            Variable { name: "A".to_string(), value: "1".to_string() },
            Variable { name: "B".to_string(), value: "two".to_string() },
        ],
    };
    assert_eq!(renv.to_shell(ShellType::Fish), "set -x A '1'\nset -x B 'two'\n");
    assert_eq!(renv.to_shell(ShellType::Zsh), "export A='1'\nexport B='two'\n");
    assert_eq!(renv.to_shell(ShellType::Nu), "$env.A = '1'\n$env.B = 'two'\n");
    assert_eq!(Renv { variables: vec![] }.to_shell(ShellType::Bash), "");
    assert_eq!(ShellType::default(), ShellType::Bash);
}

#[test]
fn unicode_word_characters_in_names() {
    let v = Variable::from_string("Ä=1").unwrap();
    assert_eq!(v.name, "Ä");
    assert_eq!(v.value, "1");
    let w = Variable::from_string("名前_2=x").unwrap();
    assert_eq!(w.name, "名前_2");
    assert_eq!(Variable::from_string("a.b=1").err(), Some(VaultError::ParseError));
    assert_eq!(Variable::from_string("€=1").err(), Some(VaultError::ParseError));
}
