//! Install actions: commands that install a tool where a check says it is missing.
use crate::action::{ActionOutput, Status};
use crate::detector::ScriptOutcome;
use crate::config::{GlobalConfig, HermitConfig, InstallConfig, merged_requires, spec_total_order};
use crate::errors::{ConfigError, InstallActionError};
use crate::render::{RenderEnv, map_pairs, pairs_of, pairs_view, rendered, snippet_budget};
use crate::sorted::{Cmp, SortedMap, compare_keys, lex_lt};
use crate::tags::{RequireSet, opt_view};
use crate::text;
use std::hash::{Hash, Hasher};
use vstd::prelude::*;
use xxhash_rust::xxh3::Xxh3;

verus! {

/// Running `install_cmd` where `check_cmd` (if any) does not succeed.
#[derive(Debug)]
pub struct InstallAction {
    pub name: String,
    pub requires: RequireSet,
    pub check_cmd: Option<String>,
    pub install_cmd: String,
    pub order: u64,
}

/// `(k, v)` put into pairs sorted by key: replacing the pair with the same
/// key, else before the first pair with a greater key.
pub open spec fn insert_pair(ps: Seq<(Seq<char>, Seq<char>)>, k: Seq<char>, v: Seq<char>) -> Seq<
    (Seq<char>, Seq<char>),
>
    decreases ps.len(),
{
    if ps.len() == 0 {
        seq![(k, v)]
    } else if text::chars_key(ps[0].0) == text::chars_key(k) {
        seq![(k, v)] + ps.skip(1)
    } else if lex_lt(text::chars_key(k), text::chars_key(ps[0].0)) {
        seq![(k, v)] + ps
    } else {
        seq![ps[0]] + insert_pair(ps.skip(1), k, v)
    }
}

/// The variables an install entry renders its commands with: its own, and
/// `name` set to the entry's name.
pub open spec fn install_vars(e: InstallConfig) -> Seq<(Seq<char>, Seq<char>)> {
    insert_pair(map_pairs(e.variables), "name"@, e.name@)
}

/// A template rendered for the file `cfg` with the full snippet budget.
pub open spec fn render_result(
    cfg: HermitConfig,
    g: GlobalConfig,
    env: RenderEnv,
    content: Seq<char>,
    vars: Seq<(Seq<char>, Seq<char>)>,
) -> Result<Seq<char>, Seq<char>> {
    rendered(cfg, g, env, content, vars, snippet_budget(cfg, g) as nat)
}

/// The pairs of a map with `(k, v)` put in (see `insert_pair`).
fn with_pair(m: &SortedMap<String, String>, k: &str, v: &str) -> (r: Vec<(String, String)>)
    requires
        m.wf(),
    ensures
        pairs_view(r@) == insert_pair(map_pairs(*m), k@, v@),
{
    let ps = pairs_of(m);
    let ghost pv = pairs_view(ps@);
    let kk = text::key_of_str(k);
    let mut r: Vec<(String, String)> = Vec::new();
    let mut inserted = false;
    let mut i: usize = 0;
    assert(pv.skip(0) =~= pv);
    while i < ps.len()
        invariant
            pv == pairs_view(ps@),
            pv == map_pairs(*m),
            kk@ == text::chars_key(k@),
            i <= ps.len(),
            !inserted ==> pairs_view(r@) + insert_pair(pv.skip(i as int), k@, v@) == insert_pair(pv, k@, v@),
            inserted ==> pairs_view(r@) + pv.skip(i as int) == insert_pair(pv, k@, v@),
        decreases ps.len() - i,
    {
        let ghost rest = pv.skip(i as int);
        assert(rest[0] == pv[i as int]);
        assert(rest.skip(1) =~= pv.skip(i + 1));
        let ghost pre = pairs_view(r@);
        if inserted {
            r.push((ps[i].0.clone(), ps[i].1.clone()));
            assert(pairs_view(r@) =~= pre.push(pv[i as int]));
            assert(pairs_view(r@) + pv.skip(i + 1) =~= pre + rest);
        } else {
            let ki = text::key_of_str(ps[i].0.as_str());
            match compare_keys(&kk, &ki) {
                Cmp::Equal => {
                    r.push((text::owned(k), text::owned(v)));
                    inserted = true;
                    assert(pairs_view(r@) =~= pre.push((k@, v@)));
                    assert(pairs_view(r@) + pv.skip(i + 1) =~= pre + insert_pair(rest, k@, v@));
                },
                Cmp::Less => {
                    r.push((text::owned(k), text::owned(v)));
                    r.push((ps[i].0.clone(), ps[i].1.clone()));
                    inserted = true;
                    assert(pairs_view(r@) =~= pre.push((k@, v@)).push(pv[i as int]));
                    assert(pairs_view(r@) + pv.skip(i + 1) =~= pre + insert_pair(rest, k@, v@));
                },
                Cmp::Greater => {
                    r.push((ps[i].0.clone(), ps[i].1.clone()));
                    assert(pairs_view(r@) =~= pre.push(pv[i as int]));
                    assert(pairs_view(r@) + insert_pair(pv.skip(i + 1), k@, v@) =~= pre + insert_pair(
                        rest,
                        k@,
                        v@,
                    ));
                },
            }
        }
        i = i + 1;
    }
    if !inserted {
        let ghost pre = pairs_view(r@);
        r.push((text::owned(k), text::owned(v)));
        assert(pairs_view(r@) =~= pre.push((k@, v@)));
        assert(pv.skip(i as int) =~= Seq::<(Seq<char>, Seq<char>)>::empty());
    } else {
        assert(pv.skip(i as int) =~= Seq::<(Seq<char>, Seq<char>)>::empty());
    }
    assert(pairs_view(r@) =~= pairs_view(r@) + Seq::<(Seq<char>, Seq<char>)>::empty());
    r
}

/// The requirements as fed to the hash: negativity, tag name, tag value.
pub open spec fn hash_parts(rs: Seq<crate::tags::RequireTag>) -> Seq<(bool, Seq<char>, Option<Seq<char>>)> {
    rs.map_values(
        |r: crate::tags::RequireTag| (r.is_negative(), r.tag().spec_name(), r.tag().spec_value()),
    )
}

/// What an XXH3 hasher gives after being fed, the way `Hash` feeds a struct
/// of these fields in this order: the name, the requirements (each as the
/// variant index `0` for positive and `1` for negative, then tag name and
/// tag value), the check command, the install command and the order.
pub uninterp spec fn install_hash(
    name: Seq<char>,
    reqs: Seq<(bool, Seq<char>, Option<Seq<char>>)>,
    check: Option<Seq<char>>,
    install: Seq<char>,
    order: u64,
) -> u64;

/// Feeds the fields to `xxhash_rust::xxh3::Xxh3` through `Hash` and returns
/// `Hasher::finish`; the result is named by `install_hash`.
#[verifier::external_body]
fn xxh3_install_hash(
    name: &String,
    reqs: &Vec<(bool, String, Option<String>)>,
    check: &Option<String>,
    install: &String,
    order: u64,
) -> (r: u64)
    ensures
        r == install_hash(
            name@,
            reqs@.map_values(|p: (bool, String, Option<String>)| (p.0, p.1@, opt_view(p.2))),
            opt_view(*check),
            install@,
            order,
        ),
{
    let mut hasher = Xxh3::new();
    let tags: Vec<(isize, &String, &Option<String>)> = reqs.iter().map(|(n, t, v)| (*n as isize, t, v)).collect();
    (name, tags, check, install, order).hash(&mut hasher);
    hasher.finish()
}

/// The last `n` hexadecimal digits of `v`, zeros in front.
pub open spec fn hex_fixed(v: nat, n: nat) -> Seq<char>
    decreases n,
{
    if n == 0 {
        Seq::empty()
    } else {
        let d = v % 16;
        let c = if d < 10 {
            (d + 0x30) as char
        } else {
            (d - 10 + 0x61) as char
        };
        hex_fixed(v / 16, (n - 1) as nat) + seq![c]
    }
}

/// Appends the last `n` hexadecimal digits of `v`.
fn push_hex_fixed(r: &mut String, v: u64, n: u32)
    ensures
        final(r)@ == old(r)@ + hex_fixed(v as nat, n as nat),
    decreases n,
{
    if n > 0 {
        push_hex_fixed(r, v / 16, n - 1);
        let d = v % 16;
        let c = if d < 10 {
            char_of_code(d as u32 + 0x30)
        } else {
            char_of_code(d as u32 - 10 + 0x61)
        };
        text::push_char(r, c);
    }
}

/// Sixteen lower-case hexadecimal digits of `v`.
fn hex16(v: u64) -> (r: String)
    ensures
        r@ == hex_fixed(v as nat, 16),
{
    let mut r = String::new();
    push_hex_fixed(&mut r, v, 16);
    r
}

/// The character of an ASCII code.
fn char_of_code(v: u32) -> (c: char)
    requires
        v < 0x80,
    ensures
        c == v as char,
{
    let b: u8 = v as u8;
    b as char
}

/// The path of the type, which the identity of an install action starts with.
pub const INSTALL_ACTION_TYPE: &'static str = "hermitgrab::action::install::InstallAction";

impl InstallAction {
    /// The same action: equal fields, requirements with the same entries.
    pub open spec fn eqv(&self, o: &Self) -> bool {
        &&& self.name == o.name
        &&& self.requires.keys() == o.requires.keys()
        &&& self.requires.vals() == o.requires.vals()
        &&& self.check_cmd == o.check_cmd
        &&& self.install_cmd == o.install_cmd
        &&& self.order == o.order
    }

    /// A copy of the action.
    pub fn duplicate(&self) -> (r: InstallAction)
        requires
            self.requires.wf(),
        ensures
            r.eqv(self),
            r.requires.wf(),
    {
        InstallAction {
            name: self.name.clone(),
            requires: self.requires.dup_map(),
            check_cmd: match &self.check_cmd {
                Some(c) => Some(c.clone()),
                None => None,
            },
            install_cmd: self.install_cmd.clone(),
            order: self.order,
        }
    }

    /// The action of an install entry of `cfg`: check and install commands
    /// rendered as templates with the entry's variables and `name`, the
    /// requirements of entry and file together. Fails with the first
    /// rendering that fails (the check command first).
    pub fn new(install_entry: &InstallConfig, cfg: &HermitConfig, global: &GlobalConfig, env: &RenderEnv) -> (r:
        Result<InstallAction, ConfigError>)
        requires
            cfg.wf(),
            global.wf(),
            cfg.has_directory(),
            install_entry.requires.wf(),
            install_entry.variables.wf(),
        ensures
            ({
                let vars = install_vars(*install_entry);
                let chk = match install_entry.check {
                    Some(c) => Some(render_result(*cfg, *global, *env, c@, vars)),
                    None => None,
                };
                let ins = render_result(*cfg, *global, *env, install_entry.install@, vars);
                match r {
                    Ok(a) => {
                        &&& a.name@ == install_entry.name@
                        &&& match chk {
                            Some(Ok(c)) => a.check_cmd matches Some(cc) && cc@ == c,
                            Some(Err(_)) => false,
                            None => a.check_cmd is None,
                        }
                        &&& ins == Ok::<Seq<char>, Seq<char>>(a.install_cmd@)
                        &&& merged_requires(a.requires, install_entry.requires, cfg.requires)
                        &&& a.order == spec_total_order(install_entry.order, cfg.order)
                    },
                    Err(ConfigError::Render(m)) => match chk {
                        Some(Err(e)) => m@ == e,
                        _ => ins == Err::<Seq<char>, Seq<char>>(m@),
                    },
                    Err(_) => false,
                }
            }),
    {
        let vars = with_pair(&install_entry.variables, "name", install_entry.name.as_str());
        let depth = cfg.budget(global);
        let check_cmd = match &install_entry.check {
            Some(c) => match cfg.render_at(global, env, c.as_str(), &vars, depth) {
                Ok(s) => Some(s),
                Err(e) => {
                    return Err(ConfigError::Render(e));
                },
            },
            None => None,
        };
        let install_cmd = match cfg.render_at(global, env, install_entry.install.as_str(), &vars, depth) {
            Ok(s) => s,
            Err(e) => {
                return Err(ConfigError::Render(e));
            },
        };
        let required = cfg.get_all_requires(&install_entry.requires);
        Ok(InstallAction {
            name: install_entry.name.clone(),
            requires: required,
            check_cmd,
            install_cmd,
            order: cfg.total_order(install_entry.order),
        })
    }

    /// One line: `Install` and the name.
    pub fn short_description(&self) -> (r: String)
        ensures
            r@ == "Install "@ + self.name@,
    {
        text::concat("Install ", self.name.as_str())
    }

    /// The name with the install command (quoted as `Debug` does).
    pub fn long_description(&self) -> (r: String)
        ensures
            r@ == "Install "@ + self.name@ + " with cmd: "@ + text::debug_str(self.install_cmd@) + ")"@,
    {
        let mut r = text::concat("Install ", self.name.as_str());
        text::push_str(&mut r, " with cmd: ");
        let d = text::debug_string(self.install_cmd.as_str());
        text::push_str(&mut r, d.as_str());
        text::push_str(&mut r, ")");
        r
    }

    /// The requirements as fed to the hash.
    fn hash_input(&self) -> (r: Vec<(bool, String, Option<String>)>)
        requires
            self.requires.wf(),
        ensures
            r@.map_values(|p: (bool, String, Option<String>)| (p.0, p.1@, opt_view(p.2))) == hash_parts(
                self.requires.keys(),
            ),
    {
        let n = self.requires.len();
        let mut r: Vec<(bool, String, Option<String>)> = Vec::new();
        let mut i: usize = 0;
        while i < n
            invariant
                self.requires.wf(),
                n == self.requires.keys().len(),
                i <= n,
                r@.map_values(|p: (bool, String, Option<String>)| (p.0, p.1@, opt_view(p.2))) == hash_parts(
                    self.requires.keys().take(i as int),
                ),
            decreases n - i,
        {
            let q = self.requires.key(i);
            let (neg, t) = match q {
                crate::tags::RequireTag::Positive(t) => (false, t),
                crate::tags::RequireTag::Negative(t) => (true, t),
            };
            let v = match t.value() {
                Some(s) => Some(s.clone()),
                None => None,
            };
            let ghost pre = r@;
            r.push((neg, text::owned(t.name()), v));
            assert(r@.map_values(|p: (bool, String, Option<String>)| (p.0, p.1@, opt_view(p.2))) =~= pre.map_values(
                |p: (bool, String, Option<String>)| (p.0, p.1@, opt_view(p.2)),
            ).push((neg, t.spec_name(), t.spec_value())));
            assert(hash_parts(self.requires.keys().take(i + 1)) =~= hash_parts(self.requires.keys().take(i as int)).push(
                (neg, t.spec_name(), t.spec_value()),
            ));
            i = i + 1;
        }
        assert(self.requires.keys().take(n as int) =~= self.requires.keys());
        r
    }

    /// The identity of the action: the path of the type and, in sixteen
    /// hexadecimal digits, the hash of its fields.
    pub fn id(&self) -> (r: String)
        requires
            self.requires.wf(),
        ensures
            r@ == INSTALL_ACTION_TYPE@ + ":"@ + hex_fixed(
                install_hash(
                    self.name@,
                    hash_parts(self.requires.keys()),
                    opt_view(self.check_cmd),
                    self.install_cmd@,
                    self.order,
                ) as nat,
                16,
            ),
    {
        let parts = self.hash_input();
        let h = xxh3_install_hash(&self.name, &parts, &self.check_cmd, &self.install_cmd, self.order);
        let mut r = text::concat(INSTALL_ACTION_TYPE, ":");
        let hex = hex16(h);
        text::push_str(&mut r, hex.as_str());
        r
    }

    /// The requirements.
    pub fn requirements(&self) -> (r: &RequireSet)
        ensures
            *r == self.requires,
    {
        &self.requires
    }

    /// The order.
    pub fn get_order(&self) -> (r: u64)
        ensures
            r == self.order,
    {
        self.order
    }

    /// The status for the outcome of deciding whether installing is needed:
    /// installed, not installed, or the check's failure.
    pub fn get_status(&self, required: &Result<bool, String>) -> (r: Status)
        ensures
            match r {
                Status::Good(m) => *required == Ok::<bool, String>(false) && m@ == self.name@ + " is installed"@,
                Status::NotOk(m) => *required == Ok::<bool, String>(true) && m@ == self.name@ + " is not installed"@,
                Status::Error(m) => required matches Err(e) && m@ == "Failed to check installation: "@ + e@,
                Status::NotSupported => false,
            },
    {
        match required {
            Ok(false) => Status::Good(text::concat(self.name.as_str(), " is installed")),
            Ok(true) => Status::NotOk(text::concat(self.name.as_str(), " is not installed")),
            Err(e) => Status::Error(text::concat("Failed to check installation: ", e.as_str())),
        }
    }
}

/// The output recorded so far, or none.
pub open spec fn base_stdout(o: Option<ActionOutput>, n: Seq<char>) -> Option<Seq<char>> {
    match o {
        Some(a) => a.stdout_of(n),
        None => None,
    }
}

/// The error output recorded so far, or none.
pub open spec fn base_stderr(o: Option<ActionOutput>, n: Seq<char>) -> Option<Seq<char>> {
    match o {
        Some(a) => a.stderr_of(n),
        None => None,
    }
}

/// The order of names recorded so far.
pub open spec fn base_order(o: Option<ActionOutput>) -> Seq<Seq<char>> {
    match o {
        Some(a) => a.order(),
        None => Seq::empty(),
    }
}

/// Records what the command `cmd` (under `name`) wrote: with white space
/// trimmed, nothing is recorded and all is well where both outputs are
/// empty; otherwise they are added to `output` (started where there is
/// none), and the command's failure is an error with its exit code.
pub fn record_output(
    output: &mut Option<ActionOutput>,
    cmd: &str,
    name: &str,
    stdout: &str,
    stderr: &str,
    success: bool,
    code: Option<i32>,
) -> (r: Result<(), InstallActionError>)
    requires
        *old(output) matches Some(a) ==> a.wf(),
        !success && (text::trim(stdout@).len() > 0 || text::trim(stderr@).len() > 0) ==> code is Some,
    ensures
        ({
            let so = text::trim(stdout@);
            let se = text::trim(stderr@);
            if so.len() == 0 && se.len() == 0 {
                &&& *final(output) == *old(output)
                &&& r is Ok
            } else {
                &&& *final(output) matches Some(a) && a.wf() && (forall|n: Seq<char>|
                    #[trigger] a.stdout_of(n) == if n == name@ && so.len() > 0 {
                        Some(so)
                    } else {
                        base_stdout(*old(output), n)
                    }) && (forall|n: Seq<char>|
                    #[trigger] a.stderr_of(n) == if n == name@ && se.len() > 0 {
                        Some(se)
                    } else {
                        base_stderr(*old(output), n)
                    }) && a.order() == if !base_order(*old(output)).contains(name@) {
                    base_order(*old(output)).push(name@)
                } else {
                    base_order(*old(output))
                }
                &&& match r {
                    Ok(()) => success,
                    Err(InstallActionError::CommandFailed(c, x)) => !success && c@ == cmd@ && code == Some(x),
                    Err(_) => false,
                }
            }
        }),
{
    let so = text::trim_str(stdout);
    let se = text::trim_str(stderr);
    if so.as_str().is_empty() && se.as_str().is_empty() {
        return Ok(());
    }
    let mut a = match output.take() {
        Some(a) => a,
        None => ActionOutput::new(),
    };
    a.add(name, so.as_str(), se.as_str());
    *output = Some(a);
    if success {
        Ok(())
    } else {
        match code {
            Some(c) => Err(InstallActionError::CommandFailed(text::owned(cmd), c)),
            None => Ok(()),
        }
    }
}

/// What an install action does next, given how its check went.
#[derive(Debug, PartialEq, Eq, Structural)]
pub enum InstallStep {
    /// The check succeeded: the tool is there, nothing is installed.
    AlreadyInstalled,
    /// There is no check, it could not be started, or it failed: install.
    RunInstall,
}

/// Decides whether the install command runs, from the outcome of the check
/// command (`None` where the action has no check or it could not be
/// started): only a check that succeeds skips the installation.
pub fn install_step(check: &Option<ScriptOutcome>) -> (r: InstallStep)
    ensures
        (r == InstallStep::AlreadyInstalled) == (check matches Some(o) && o.success),
        (r == InstallStep::RunInstall) == !(check matches Some(o) && o.success),
{
    match check {
        Some(o) => if o.success {
            InstallStep::AlreadyInstalled
        } else {
            InstallStep::RunInstall
        },
        None => InstallStep::RunInstall,
    }
}


/// Pairs sorted by name, each name once.
pub open spec fn pairs_sorted(ps: Seq<(Seq<char>, Seq<char>)>) -> bool {
    forall|i: int, j: int|
        0 <= i < j < ps.len() ==> lex_lt(text::chars_key((#[trigger] ps[i]).0), text::chars_key((#[trigger] ps[j]).0))
}

/// Putting `(k, v)` into sorted pairs: the pair is there, every pair with
/// another name stays, and nothing else is there.
proof fn lemma_insert_pair(ps: Seq<(Seq<char>, Seq<char>)>, k: Seq<char>, v: Seq<char>)
    requires
        pairs_sorted(ps),
    ensures
        insert_pair(ps, k, v).contains((k, v)),
        forall|i: int| 0 <= i < ps.len() && ps[i].0 != k ==> insert_pair(ps, k, v).contains(#[trigger] ps[i]),
        forall|x: (Seq<char>, Seq<char>)|
            #[trigger] insert_pair(ps, k, v).contains(x) ==> x == (k, v) || (ps.contains(x) && x.0 != k),
    decreases ps.len(),
{
    let r = insert_pair(ps, k, v);
    let t = ps.skip(1);
    if ps.len() == 0 {
        assert(r[0] == (k, v));
    } else {
        let k0 = text::chars_key(ps[0].0);
        let kk = text::chars_key(k);
        assert forall|i: int| 0 <= i < t.len() implies #[trigger] t[i] == ps[i + 1] by {}
        assert(pairs_sorted(t)) by {
            assert forall|i: int, j: int| 0 <= i < j < t.len() implies lex_lt(
                text::chars_key((#[trigger] t[i]).0),
                text::chars_key((#[trigger] t[j]).0),
            ) by {
                assert(t[i] == ps[i + 1] && t[j] == ps[j + 1]);
            }
        }
        assert forall|i: int| 0 < i < ps.len() implies lex_lt(k0, text::chars_key((#[trigger] ps[i]).0)) by {
            assert(lex_lt(text::chars_key(ps[0].0), text::chars_key(ps[i].0)));
        }
        if k0 == kk {
            crate::tags::lemma_chars_key_injective(ps[0].0, k);
            assert(r == seq![(k, v)] + t);
            assert(r[0] == (k, v));
            assert forall|i: int| 0 <= i < ps.len() && ps[i].0 != k implies r.contains(#[trigger] ps[i]) by {
                assert(r[i] == ps[i]);
            }
            assert forall|x: (Seq<char>, Seq<char>)| #[trigger] r.contains(x) implies x == (k, v) || (ps.contains(x)
                && x.0 != k) by {
                let q = choose|q: int| 0 <= q < r.len() && r[q] == x;
                if q > 0 {
                    assert(x == ps[q]);
                    if x.0 == k {
                        crate::sorted::lemma_lex_irreflexive(kk);
                    }
                }
            }
        } else if lex_lt(kk, k0) {
            assert(r == seq![(k, v)] + ps);
            assert(r[0] == (k, v));
            assert forall|i: int| 0 <= i < ps.len() && ps[i].0 != k implies r.contains(#[trigger] ps[i]) by {
                assert(r[i + 1] == ps[i]);
            }
            assert forall|x: (Seq<char>, Seq<char>)| #[trigger] r.contains(x) implies x == (k, v) || (ps.contains(x)
                && x.0 != k) by {
                let q = choose|q: int| 0 <= q < r.len() && r[q] == x;
                if q > 0 {
                    assert(x == ps[q - 1]);
                    if x.0 == k {
                        if q > 1 {
                            crate::sorted::lemma_lex_transitive(kk, k0, kk);
                        }
                        crate::sorted::lemma_lex_irreflexive(kk);
                    }
                }
            }
        } else {
            lemma_insert_pair(t, k, v);
            let rt = insert_pair(t, k, v);
            assert(r == seq![ps[0]] + rt);
            assert(ps[0].0 != k);
            assert(rt.contains((k, v)));
            let q0 = choose|q: int| 0 <= q < rt.len() && rt[q] == (k, v);
            assert(r[q0 + 1] == (k, v));
            assert forall|i: int| 0 <= i < ps.len() && ps[i].0 != k implies r.contains(#[trigger] ps[i]) by {
                if i == 0 {
                    assert(r[0] == ps[0]);
                } else {
                    assert(t[i - 1] == ps[i]);
                    assert(rt.contains(t[i - 1]));
                    let q = choose|q: int| 0 <= q < rt.len() && rt[q] == t[i - 1];
                    assert(r[q + 1] == ps[i]);
                }
            }
            assert forall|x: (Seq<char>, Seq<char>)| #[trigger] r.contains(x) implies x == (k, v) || (ps.contains(x)
                && x.0 != k) by {
                let q = choose|q: int| 0 <= q < r.len() && r[q] == x;
                if q == 0 {
                    assert(ps[0] == x);
                } else {
                    assert(rt[q - 1] == x);
                    assert(rt.contains(x));
                    if x != (k, v) {
                        let w = choose|w: int| 0 <= w < t.len() && t[w] == x;
                        assert(ps[w + 1] == x);
                    }
                }
            }
        }
    }
}

/// The variables an install entry's commands are rendered with are the
/// entry's own with `name` set to the entry's name: `name` with the entry's
/// name is among them, every variable of the entry under another name is
/// among them with its own value, and nothing else is.
pub proof fn law_install_vars(e: InstallConfig)
    requires
        e.variables.wf(),
    ensures
        install_vars(e).contains(("name"@, e.name@)),
        forall|i: int|
            0 <= i < e.variables.keys().len() && e.variables.keys()[i]@ != "name"@ ==> install_vars(e).contains(
                (#[trigger] e.variables.keys()[i]@, e.variables.vals()[i]@),
            ),
        forall|x: (Seq<char>, Seq<char>)|
            #[trigger] install_vars(e).contains(x) ==> x == ("name"@, e.name@) || (x.0 != "name"@ && exists|i: int|
                0 <= i < e.variables.keys().len() && e.variables.keys()[i]@ == x.0 && e.variables.vals()[i]@ == x.1),
{
    let ps = map_pairs(e.variables);
    assert forall|i: int| 0 <= i < ps.len() implies (#[trigger] ps[i]) == (
        e.variables.keys()[i]@,
        e.variables.vals()[i]@,
    ) by {}
    assert(pairs_sorted(ps)) by {
        assert forall|i: int, j: int| 0 <= i < j < ps.len() implies lex_lt(
            text::chars_key((#[trigger] ps[i]).0),
            text::chars_key((#[trigger] ps[j]).0),
        ) by {
            assert(lex_lt(e.variables.key_at(i), e.variables.key_at(j)));
        }
    }
    lemma_insert_pair(ps, "name"@, e.name@);
    assert forall|i: int|
        0 <= i < e.variables.keys().len() && e.variables.keys()[i]@ != "name"@ implies install_vars(e).contains(
        (#[trigger] e.variables.keys()[i]@, e.variables.vals()[i]@),
    ) by {
        assert(ps[i].0 != "name"@);
    }
    assert forall|x: (Seq<char>, Seq<char>)| #[trigger] install_vars(e).contains(x) implies x == ("name"@, e.name@) || (
    x.0 != "name"@ && exists|i: int|
        0 <= i < e.variables.keys().len() && e.variables.keys()[i]@ == x.0 && e.variables.vals()[i]@ == x.1) by {
        if x != ("name"@, e.name@) {
            let i = choose|i: int| 0 <= i < ps.len() && ps[i] == x;
            assert(e.variables.keys()[i]@ == x.0 && e.variables.vals()[i]@ == x.1);
        }
    }
}

} // verus!
