//! Environment templates: `NAME=VALUE` lines whose values may hold
//! `{{secretName}}` placeholders, resolved against the vault and written out
//! as shell assignments.
use vstd::prelude::*;
use vstd::string::*;

use crate::crypto::Key;
use crate::error::VaultError;
use crate::secret::{cleartext_of, opt_text, Secret};
use crate::shell_type::ShellType;
use crate::store::{has_name, index_of_name, Vault, VaultModel};
use crate::text::{chars_of, lines_of, push_char, split_lines, string_from, trim, trim_chars};

verus! {

/// Whether `c` is a word character: the class `\w` of Unicode regular
/// expressions (letters, marks, decimal digits, connector punctuation and
/// join controls).
pub uninterp spec fn is_word_char(c: char) -> bool;

/// Relies on regex's `Regex::new` and `Regex::is_match`: whether the one
/// character `c` matches the pattern `^\w$`, which depends on `c` alone.
#[verifier::external_body]
fn word_char(c: char) -> (r: bool)
    ensures
        r == is_word_char(c),
{
    let mut buf = [0u8; 4];
    match regex::Regex::new(r"^\w$") {
        Ok(re) => re.is_match(c.encode_utf8(&mut buf)),
        Err(_) => false,
    }
}

/// `l` is `NAME=VALUE` with its `=` at position `k`: a non-empty name of
/// word characters (`=` is none), and a value without `=`.
pub open spec fn assignment_at(l: Seq<char>, k: int) -> bool {
    &&& 0 < k < l.len()
    &&& l[k] == '='
    &&& forall|i: int| #![trigger l[i]] 0 <= i < k ==> is_word_char(l[i]) && l[i] != '='
    &&& forall|i: int| k < i < l.len() ==> #[trigger] l[i] != '='
}

/// The name and value of a `NAME=VALUE` line, or `None` when it has not
/// that form.
pub open spec fn parse_assignment(l: Seq<char>) -> Option<(Seq<char>, Seq<char>)> {
    if exists|k: int| assignment_at(l, k) {
        let k = choose|k: int| assignment_at(l, k);
        Some((l.subrange(0, k), l.subrange(k + 1, l.len() as int)))
    } else {
        None
    }
}

/// `t` starts with a placeholder `{{name}}` whose closing braces stand at
/// `q` and `q + 1`: the name is not empty and holds no `}`.
pub open spec fn placeholder_at(t: Seq<char>, q: int) -> bool {
    &&& 2 < q
    &&& q + 1 < t.len()
    &&& t[0] == '{'
    &&& t[1] == '{'
    &&& t[q] == '}'
    &&& t[q + 1] == '}'
    &&& forall|j: int| 2 <= j < q ==> #[trigger] t[j] != '}'
}

/// Where the placeholder at the start of `t` closes, if one starts there.
pub open spec fn placeholder_end(t: Seq<char>) -> Option<int> {
    if exists|q: int| placeholder_at(t, q) {
        Some(choose|q: int| placeholder_at(t, q))
    } else {
        None
    }
}

/// What a placeholder naming `name` is replaced by: the trimmed cleartext of
/// that secret under key `k`.
pub open spec fn secret_text(db: VaultModel, k: Seq<u8>, name: Seq<char>) -> Result<
    Seq<char>,
    VaultError,
> {
    if !has_name(db.secrets, name) {
        Err(VaultError::NotFound)
    } else {
        match cleartext_of(k, db.secrets[index_of_name(db.secrets, name)].value) {
            Ok(t) => Ok(trim(t)),
            Err(e) => Err(e),
        }
    }
}

/// `a` put before the text of `r`, if there is one.
pub open spec fn prefixed(a: Seq<char>, r: Result<Seq<char>, Unresolved>) -> Result<
    Seq<char>,
    Unresolved,
> {
    match r {
        Ok(x) => Ok(a + x),
        Err(e) => Err(e),
    }
}

/// Why a placeholder could not be replaced: the error and the secret's name.
pub type Unresolved = (VaultError, Seq<char>);

/// `t` with every placeholder, from left to right, replaced by its secret's
/// text; the first placeholder that cannot be resolved gives the error,
/// with the name it holds.
pub open spec fn expand(db: VaultModel, k: Seq<u8>, t: Seq<char>) -> Result<Seq<char>, Unresolved>
    decreases t.len(),
{
    if t.len() == 0 {
        Ok(t)
    } else if exists|q: int| placeholder_at(t, q) {
        let q = choose|q: int| placeholder_at(t, q);
        let name = t.subrange(2, q);
        match secret_text(db, k, name) {
            Err(e) => Err((e, name)),
            Ok(v) => prefixed(v, expand(db, k, t.skip(q + 2))),
        }
    } else {
        prefixed(seq![t[0]], expand(db, k, t.drop_first()))
    }
}

/// What one template line gives: `None` for a blank or comment line, else
/// the resolved variable, or the error that drops the line with the name of
/// the secret that could not be resolved, if that is the reason.
pub open spec fn line_result(db: VaultModel, k: Seq<u8>, l: Seq<char>) -> Option<
    Result<(Seq<char>, Seq<char>), (VaultError, Option<Seq<char>>)>,
> {
    let t = trim(l);
    if t.len() == 0 || t[0] == '#' {
        None
    } else {
        match parse_assignment(t) {
            None => Some(Err((VaultError::ParseError, None))),
            Some(nv) => match expand(db, k, nv.1) {
                Ok(v) => Some(Ok((nv.0, v))),
                Err(u) => Some(Err((u.0, Some(u.1)))),
            },
        }
    }
}

/// The variables that the lines resolve to, in order.
pub open spec fn resolved_vars(db: VaultModel, k: Seq<u8>, lines: Seq<Seq<char>>) -> Seq<
    (Seq<char>, Seq<char>),
>
    decreases lines.len(),
{
    if lines.len() == 0 {
        seq![]
    } else {
        let prev = resolved_vars(db, k, lines.drop_last());
        match line_result(db, k, lines.last()) {
            Some(Ok(v)) => prev.push(v),
            _ => prev,
        }
    }
}

/// The errors of the lines, each with its 1-based line number and the
/// secret that could not be resolved, if any, in order.
pub open spec fn line_errors(db: VaultModel, k: Seq<u8>, lines: Seq<Seq<char>>) -> Seq<
    (int, VaultError, Option<Seq<char>>),
>
    decreases lines.len(),
{
    if lines.len() == 0 {
        seq![]
    } else {
        let prev = line_errors(db, k, lines.drop_last());
        match line_result(db, k, lines.last()) {
            Some(Err(e)) => prev.push((lines.len() as int, e.0, e.1)),
            _ => prev,
        }
    }
}

/// One shell assignment of `value` to `name`.
pub open spec fn shell_line(kind: ShellType, name: Seq<char>, value: Seq<char>) -> Seq<char> {
    match kind {
        ShellType::Fish => "set -x "@ + name + " '"@ + value + "'\n"@,
        ShellType::Bash | ShellType::Zsh => "export "@ + name + "='"@ + value + "'\n"@,
        ShellType::Nu => "$env."@ + name + " = '"@ + value + "'\n"@,
    }
}

/// The assignments of all `vars`, one line each, in order.
pub open spec fn shell_text(kind: ShellType, vars: Seq<(Seq<char>, Seq<char>)>) -> Seq<char>
    decreases vars.len(),
{
    if vars.len() == 0 {
        seq![]
    } else {
        shell_text(kind, vars.drop_last()) + shell_line(kind, vars.last().0, vars.last().1)
    }
}

/// A line that gives no variable (blank, a comment, malformed, or with a
/// placeholder that does not resolve) does not change what the other lines
/// give: the variables are those of the template without that line.
pub proof fn lemma_dropped_line_leaves_others(
    db: VaultModel,
    k: Seq<u8>,
    lines: Seq<Seq<char>>,
    i: int,
)
    requires
        0 <= i < lines.len(),
        !(line_result(db, k, lines[i]) matches Some(Ok(_))),
    ensures
        resolved_vars(db, k, lines) == resolved_vars(db, k, lines.remove(i)),
    decreases lines.len(),
{
    let rest = lines.remove(i);
    if i == lines.len() - 1 {
        assert(rest =~= lines.drop_last());
    } else {
        assert(rest.drop_last() =~= lines.drop_last().remove(i));
        assert(rest.last() == lines.last());
        lemma_dropped_line_leaves_others(db, k, lines.drop_last(), i);
    }
}

/// One variable of a template.
#[derive(Debug)]
pub struct Variable {
    pub name: String,
    pub value: String,
}

impl View for Variable {
    type V = (Seq<char>, Seq<char>);

    open spec fn view(&self) -> (Seq<char>, Seq<char>) {
        (self.name@, self.value@)
    }
}

/// A template line that was dropped, with its 1-based number, the reason,
/// and the secret that could not be resolved, if that is the reason.
#[derive(Debug)]
pub struct LineError {
    pub line: usize,
    pub error: VaultError,
    pub secret: Option<String>,
}

/// The resolved variables of a template.
#[derive(Debug)]
pub struct Renv {
    pub variables: Vec<Variable>,
}

/// The name and value of a `NAME=VALUE` line.
fn parse_chars(l: &Vec<char>) -> (r: Option<(String, String)>)
    ensures
        match parse_assignment(l@) {
            Some(nv) => r matches Some(x) && x.0@ == nv.0 && x.1@ == nv.1,
            None => r is None,
        },
{
    let n = l.len();
    let mut k: usize = 0;
    while k < n && l[k] != '='
        invariant
            n == l@.len(),
            k <= n,
            forall|i: int| 0 <= i < k ==> is_word_char(#[trigger] l@[i]) && l@[i] != '=',
        decreases n - k,
    {
        if !word_char(l[k]) {
            proof {
                assert forall|k2: int| !assignment_at(l@, k2) by {
                    if assignment_at(l@, k2) {
                        if k2 > k {
                            assert(is_word_char(l@[k as int]) && l@[k as int] != '=');
                        } else {
                            assert(l@[k2] != '=');
                        }
                    }
                }
            }
            return None;
        }
        k = k + 1;
    }
    if k == 0 || k == n {
        proof {
            assert forall|k2: int| !assignment_at(l@, k2) by {
                if assignment_at(l@, k2) {
                    assert(l@[k2] == '=');
                    if k2 < k as int {
                        assert(l@[k2] != '=');
                    } else {
                        assert(k == 0);
                        assert(l@[0] == '=');
                        assert(is_word_char(l@[0]) && l@[0] != '=');
                    }
                }
            }
        }
        return None;
    }
    let mut j: usize = k + 1;
    while j < n
        invariant
            n == l@.len(),
            0 < k < j <= n,
            l@[k as int] == '=',
            forall|i: int| 0 <= i < k ==> is_word_char(#[trigger] l@[i]) && l@[i] != '=',
            forall|i: int| k < i < j ==> #[trigger] l@[i] != '=',
        decreases n - j,
    {
        if l[j] == '=' {
            proof {
                assert forall|k2: int| !assignment_at(l@, k2) by {
                    if assignment_at(l@, k2) {
                        if k2 < k as int {
                            assert(l@[k2] != '=');
                        } else if k2 == k as int {
                            assert(l@[j as int] != '=');
                        } else {
                            assert(is_word_char(l@[k as int]) && l@[k as int] != '=');
                        }
                    }
                }
            }
            return None;
        }
        j = j + 1;
    }
    proof {
        assert(assignment_at(l@, k as int));
        let k2 = choose|k2: int| assignment_at(l@, k2);
        if k2 < k as int {
            assert(l@[k2] != '=');
        } else if k2 > k as int {
            assert(is_word_char(l@[k as int]) && l@[k as int] != '=');
        }
    }
    Some((string_from(l, 0, k), string_from(l, k + 1, n)))
}

/// Where the placeholder starting at position `i` of `t` closes.
fn find_placeholder(t: &Vec<char>, i: usize) -> (r: Option<usize>)
    requires
        i < t@.len(),
    ensures
        match placeholder_end(t@.skip(i as int)) {
            Some(q) => r == Some((q + i) as usize) && 2 < q && q + 2 <= t@.len() - i,
            None => r is None,
        },
{
    let ghost s = t@.skip(i as int);
    let n = t.len();
    if i + 1 < n && t[i] == '{' && t[i + 1] == '{' {
        let mut j: usize = i + 2;
        while j < n && t[j] != '}'
            invariant
                n == t@.len(),
                i + 2 <= j <= n,
                forall|m: int| i + 2 <= m < j ==> #[trigger] t@[m] != '}',
            decreases n - j,
        {
            j = j + 1;
        }
        if j < n && j > i + 2 && j + 1 < n && t[j + 1] == '}' {
            proof {
                let q = (j - i) as int;
                assert forall|m: int| 2 <= m < q implies #[trigger] s[m] != '}' by {
                    assert(s[m] == t@[m + i]);
                }
                assert(placeholder_at(s, q));
                let q2 = choose|q2: int| placeholder_at(s, q2);
                if q2 < q {
                    assert(s[q2] == t@[q2 + i]);
                } else if q2 > q {
                    assert(s[q] == t@[j as int]);
                }
            }
            return Some(j);
        }
        proof {
            assert forall|q: int| !placeholder_at(s, q) by {
                if placeholder_at(s, q) {
                    assert(s[q] == t@[q + i]);
                    if q + i < j {
                    } else if q + i > j {
                        if j < n {
                            assert(s[j - i] == t@[j as int]);
                        }
                    } else {
                        assert(s[q + 1] == t@[q + i + 1]);
                    }
                }
            }
        }
        None
    } else {
        proof {
            assert forall|q: int| !placeholder_at(s, q) by {
                if placeholder_at(s, q) {
                    assert(s[0] == t@[i as int]);
                    assert(s[1] == t@[i + 1]);
                }
            }
        }
        None
    }
}

proof fn lemma_prefixed_assoc(a: Seq<char>, b: Seq<char>, r: Result<Seq<char>, Unresolved>)
    ensures
        prefixed(a, prefixed(b, r)) == prefixed(a + b, r),
{
    if let Ok(x) = r {
        assert(a + (b + x) =~= (a + b) + x);
    }
}

/// The trimmed cleartext of the secret named `name`.
fn resolve_secret(db: &Vault, key: &Key, name: &str) -> (r: Result<String, VaultError>)
    requires
        db.wf(),
    ensures
        match r {
            Ok(v) => secret_text(db@, key@, name@) == Ok::<Seq<char>, VaultError>(v@),
            Err(e) => secret_text(db@, key@, name@) == Err::<Seq<char>, VaultError>(e),
        },
{
    let secret = Secret::get(db, name)?;
    let clear = secret.to_cleartext(key)?;
    let chars = chars_of(clear.value.as_str());
    let trimmed = trim_chars(&chars);
    let r = string_from(&trimmed, 0, trimmed.len());
    assert(trimmed@.subrange(0, trimmed@.len() as int) =~= trimmed@);
    Ok(r)
}

/// `value` with its placeholders replaced by their secrets' text.
pub fn replace_template_vars(db: &Vault, key: &Key, value: &str) -> (r: Result<
    String,
    (VaultError, String),
>)
    requires
        db.wf(),
    ensures
        match r {
            Ok(v) => expand(db@, key@, value@) == Ok::<Seq<char>, Unresolved>(v@),
            Err(e) => expand(db@, key@, value@) == Err::<Seq<char>, Unresolved>((e.0, e.1@)),
        },
{
    let t = chars_of(value);
    let n = t.len();
    let mut out = String::new();
    let mut i: usize = 0;
    assert(t@.skip(0) =~= t@);
    assert(Seq::<char>::empty() + t@ =~= t@);
    while i < n
        invariant
            n == t@.len(),
            t@ == value@,
            i <= n,
            db.wf(),
            expand(db@, key@, t@) == prefixed(out@, expand(db@, key@, t@.skip(i as int))),
        decreases n - i,
    {
        let ghost s = t@.skip(i as int);
        match find_placeholder(&t, i) {
            Some(q) => {
                let name = string_from(&t, i + 2, q);
                assert(name@ =~= s.subrange(2, q - i));
                assert(s.skip(q - i + 2) =~= t@.skip(q + 2));
                let v = match resolve_secret(db, key, name.as_str()) {
                    Ok(v) => v,
                    Err(e) => {
                        assert(expand(db@, key@, s) == Err::<Seq<char>, Unresolved>((e, name@)));
                        assert(expand(db@, key@, t@) == Err::<Seq<char>, Unresolved>((e, name@)));
                        return Err((e, name));
                    },
                };
                proof {
                    lemma_prefixed_assoc(out@, v@, expand(db@, key@, t@.skip(q + 2)));
                }
                out.append(v.as_str());
                i = q + 2;
            },
            None => {
                assert(s[0] == t@[i as int]);
                assert(s.drop_first() =~= t@.skip(i + 1));
                proof {
                    lemma_prefixed_assoc(out@, seq![t@[i as int]], expand(db@, key@, t@.skip(i + 1)));
                    assert(out@.push(t@[i as int]) =~= out@ + seq![t@[i as int]]);
                }
                push_char(&mut out, t[i]);
                i = i + 1;
            },
        }
    }
    proof {
        assert(t@.skip(n as int).len() == 0);
        assert(out@ + t@.skip(n as int) =~= out@);
    }
    Ok(out)
}

impl Variable {
    /// Parses a `NAME=VALUE` line: a name of word characters, a value
    /// without `=`.
    pub fn from_string(s: &str) -> (r: Result<Variable, VaultError>)
        ensures
            match parse_assignment(s@) {
                Some(nv) => r matches Ok(v) && v@ == nv,
                None => r == Err::<Variable, VaultError>(VaultError::ParseError),
            },
    {
        let chars = chars_of(s);
        match parse_chars(&chars) {
            Some((name, value)) => Ok(Variable { name, value }),
            None => Err(VaultError::ParseError),
        }
    }
}

impl Renv {
    /// Resolves a template: every line that parses and whose placeholders
    /// all resolve gives a variable; every other line that is neither blank
    /// nor a comment is reported with its number and dropped.
    pub fn load(db: &Vault, key: &Key, text: &str) -> (r: (Renv, Vec<LineError>))
        requires
            db.wf(),
        ensures
            r.0.variables@.len() == resolved_vars(db@, key@, split_lines(text@)).len(),
            forall|i: int|
                0 <= i < r.0.variables@.len() ==> #[trigger] r.0.variables@[i]@ == resolved_vars(
                    db@,
                    key@,
                    split_lines(text@),
                )[i],
            r.1@.len() == line_errors(db@, key@, split_lines(text@)).len(),
            forall|i: int|
                0 <= i < r.1@.len() ==> (#[trigger] r.1@[i]).line == line_errors(
                    db@,
                    key@,
                    split_lines(text@),
                )[i].0 && r.1@[i].error == line_errors(db@, key@, split_lines(text@))[i].1
                    && opt_text(r.1@[i].secret) == line_errors(db@, key@, split_lines(text@))[i].2,
    {
        let chars = chars_of(text);
        let lines = lines_of(&chars);
        let ghost ls = split_lines(text@);
        let mut variables: Vec<Variable> = Vec::new();
        let mut errors: Vec<LineError> = Vec::new();
        let mut i: usize = 0;
        while i < lines.len()
            invariant
                db.wf(),
                lines@.len() == ls.len(),
                forall|j: int| 0 <= j < ls.len() ==> #[trigger] lines@[j]@ == ls[j],
                i <= ls.len(),
                variables@.len() == resolved_vars(db@, key@, ls.take(i as int)).len(),
                forall|j: int|
                    0 <= j < variables@.len() ==> #[trigger] variables@[j]@ == resolved_vars(
                        db@,
                        key@,
                        ls.take(i as int),
                    )[j],
                errors@.len() == line_errors(db@, key@, ls.take(i as int)).len(),
                forall|j: int|
                    0 <= j < errors@.len() ==> (#[trigger] errors@[j]).line == line_errors(
                        db@,
                        key@,
                        ls.take(i as int),
                    )[j].0 && errors@[j].error == line_errors(db@, key@, ls.take(i as int))[j].1
                        && opt_text(errors@[j].secret) == line_errors(db@, key@, ls.take(i as int))[j].2,
            decreases ls.len() - i,
        {
            let ghost pre = ls.take(i as int);
            let ghost next = ls.take(i + 1);
            assert(next.drop_last() =~= pre);
            assert(next.last() == ls[i as int]);
            assert(next.len() == i + 1);
            let ghost vars_before = variables@;
            let ghost errs_before = errors@;
            let t = trim_chars(&lines[i]);
            if t.len() == 0 || t[0] == '#' {
            } else {
                match parse_chars(&t) {
                    None => {
                        errors.push(
                            LineError { line: i + 1, error: VaultError::ParseError, secret: None },
                        );
                    },
                    Some((name, value)) => {
                        match replace_template_vars(db, key, value.as_str()) {
                            Ok(v) => {
                                variables.push(Variable { name, value: v });
                            },
                            Err((e, secret)) => {
                                errors.push(LineError { line: i + 1, error: e, secret: Some(secret) });
                            },
                        }
                    },
                }
            }
            proof {
                assert forall|j: int| 0 <= j < vars_before.len() implies #[trigger] variables@[j]
                    == vars_before[j] by {}
                assert forall|j: int| 0 <= j < errs_before.len() implies #[trigger] errors@[j]
                    == errs_before[j] by {}
            }
            i = i + 1;
        }
        assert(ls.take(ls.len() as int) =~= ls);
        (Renv { variables }, errors)
    }

    /// The shell code that assigns every variable, one line each.
    pub fn to_shell(&self, shell_type: ShellType) -> (r: String)
        ensures
            r@ == shell_text(shell_type, self.variables@.map_values(|v: Variable| v@)),
    {
        let ghost vs = self.variables@.map_values(|v: Variable| v@);
        let mut output = String::new();
        let mut i: usize = 0;
        while i < self.variables.len()
            invariant
                i <= self.variables@.len(),
                vs == self.variables@.map_values(|v: Variable| v@),
                output@ == shell_text(shell_type, vs.take(i as int)),
            decreases self.variables@.len() - i,
        {
            let v = &self.variables[i];
            assert(vs.take(i + 1).drop_last() =~= vs.take(i as int));
            assert(vs.take(i + 1).last() == v@);
            match shell_type {
                ShellType::Fish => {
                    output.append("set -x ");
                    output.append(v.name.as_str());
                    output.append(" '");
                    output.append(v.value.as_str());
                    output.append("'\n");
                },
                ShellType::Bash | ShellType::Zsh => {
                    output.append("export ");
                    output.append(v.name.as_str());
                    output.append("='");
                    output.append(v.value.as_str());
                    output.append("'\n");
                },
                ShellType::Nu => {
                    output.append("$env.");
                    output.append(v.name.as_str());
                    output.append(" = '");
                    output.append(v.value.as_str());
                    output.append("'\n");
                },
            }
            i = i + 1;
        }
        assert(vs.take(vs.len() as int) =~= vs);
        output
    }
}

} // verus!
