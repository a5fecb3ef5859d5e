//! Rendering of templates and snippets with handlebars.
use crate::config::{GlobalConfig, HermitConfig};
use crate::paths;
use crate::sorted::SortedMap;
use crate::tags::{Tag, TagSet};
use crate::text;
use handlebars::{Context, Handlebars, Helper, HelperResult, Output, RenderContext, RenderErrorReason};
use std::collections::BTreeMap;
use vstd::prelude::*;

verus! {

/// The base directories that the environment may set, and the home
/// directory that tilde expansion uses.
#[derive(Debug)]
pub struct RenderEnv {
    pub xdg_config: Option<String>,
    pub xdg_data: Option<String>,
    pub xdg_state: Option<String>,
    pub home: Option<String>,
}

/// Name/value pairs as plain text.
pub open spec fn pairs_view(p: Seq<(String, String)>) -> Seq<(Seq<char>, Seq<char>)> {
    p.map_values(|e: (String, String)| (e.0@, e.1@))
}

/// The entries of a string map, in key order.
pub open spec fn map_pairs(m: SortedMap<String, String>) -> Seq<(Seq<char>, Seq<char>)> {
    Seq::new(m.keys().len(), |i: int| (m.keys()[i]@, m.vals()[i]@))
}

/// The map a list of name/value pairs makes, a later pair replacing an
/// earlier one of the same name.
pub open spec fn section_map(p: Seq<(Seq<char>, Seq<char>)>) -> Map<Seq<char>, Seq<char>>
    decreases p.len(),
{
    if p.len() == 0 {
        Map::empty()
    } else {
        section_map(p.drop_last()).insert(p.last().0, p.last().1)
    }
}

/// Whether no two pairs have the same name.
pub open spec fn unique_keys<V>(p: Seq<(Seq<char>, V)>) -> bool {
    forall|i: int, j: int| 0 <= i < j < p.len() ==> (#[trigger] p[i]).0 != (#[trigger] p[j]).0
}

/// The sections of a template's data object, each as a name and a map.
pub open spec fn sections_view(v: Seq<(String, Vec<(String, String)>)>) -> Seq<(Seq<char>, Map<Seq<char>, Seq<char>>)> {
    v.map_values(|s: (String, Vec<(String, String)>)| (s.0@, section_map(pairs_view(s.1@))))
}

/// What handlebars renders for `template` with the helper `helper`
/// registered and a data object holding, under each section's name, an
/// object of that section's map: the rendered text, or the message of the
/// failure. The helper writes `snippets[name]` for the path `name` of its
/// first parameter where the map has it, and fails otherwise.
pub uninterp spec fn handlebars_render(
    template: Seq<char>,
    helper: Seq<char>,
    data: Seq<(Seq<char>, Map<Seq<char>, Seq<char>>)>,
    snippets: Map<Seq<char>, Seq<char>>,
) -> Result<Seq<char>, Seq<char>>;

/// A value from the environment, or a default.
pub open spec fn or_default(v: Option<String>, d: Seq<char>) -> Seq<char> {
    match v {
        Some(s) => s@,
        None => d,
    }
}

/// The `dir` map of a template: the file's directory (as `this` and as
/// `this_dir`), the hermit and home directories and the three base directories.
pub open spec fn dir_pairs(this: Seq<char>, hermit: Seq<char>, home: Seq<char>, env: RenderEnv) -> Seq<
    (Seq<char>, Seq<char>),
> {
    seq![
        ("this"@, this),
        ("this_dir"@, this),
        ("hermit"@, hermit),
        ("home"@, home),
        ("xdg_config"@, or_default(env.xdg_config, paths::join(home, ".config"@))),
        ("xdg_data"@, or_default(env.xdg_data, paths::join(paths::join(home, ".local"@), "share"@))),
        ("xdg_state"@, or_default(env.xdg_state, paths::join(paths::join(home, ".local"@), "state"@))),
    ]
}

/// The `tag` map of a template: name and value of each tag that has a value,
/// in tag order.
pub open spec fn tag_pairs(ts: Seq<Tag>) -> Seq<(Seq<char>, Seq<char>)>
    decreases ts.len(),
{
    if ts.len() == 0 {
        Seq::empty()
    } else {
        let rest = tag_pairs(ts.drop_last());
        match ts.last().spec_value() {
            Some(v) => rest.push((ts.last().spec_name(), v)),
            None => rest,
        }
    }
}

/// The source of a snippet: the file's own under exactly that name, else the
/// global one under that name.
pub open spec fn snippet_source(cfg: HermitConfig, g: GlobalConfig, name: Seq<char>) -> Option<Seq<char>> {
    match cfg.snippets.lookup(text::chars_key(name)) {
        Some(s) => Some(s@),
        None => match g.spec_snippets().lookup(text::chars_key(name)) {
            Some(s) => Some(s@),
            None => None,
        },
    }
}

/// How deep snippets may nest in a render. A chain of snippets that ends
/// meets no snippet twice under the same variables, and the variables are
/// only ever the given ones or none, so twice the number of snippets
/// suffices.
pub open spec fn snippet_budget(cfg: HermitConfig, g: GlobalConfig) -> u64 {
    let n = (cfg.snippets.keys().len() as u64).saturating_add(g.spec_snippets().keys().len() as u64);
    n.saturating_add(n).saturating_add(1)
}

/// The result of rendering `content` for the file `cfg`: every `~` replaced
/// by the home directory, then handlebars with the directories, the
/// variables (each rendered first with no variables, kept as it is where
/// that fails), the detected tags with a value, and the `snippet` helper;
/// snippets may nest `depth` deep.
pub open spec fn rendered(
    cfg: HermitConfig,
    g: GlobalConfig,
    env: RenderEnv,
    content: Seq<char>,
    vars: Seq<(Seq<char>, Seq<char>)>,
    depth: nat,
) -> Result<Seq<char>, Seq<char>>
    decreases depth, vars.len(), 3nat,
{
    handlebars_render(
        text::replace_char(content, '~', g.spec_home_dir()),
        "snippet"@,
        seq![
            ("dir"@, section_map(dir_pairs(cfg.spec_directory(), g.spec_hermit_dir(), g.spec_home_dir(), env))),
            ("var"@, section_map(rendered_vars(cfg, g, env, vars, depth))),
            ("tag"@, section_map(tag_pairs(g.spec_detected().keys()))),
        ],
        snippet_table(cfg, g, env, vars, depth),
    )
}

/// The variables of a render, each rendered with no variables, or kept as
/// given where that fails.
pub open spec fn rendered_vars(
    cfg: HermitConfig,
    g: GlobalConfig,
    env: RenderEnv,
    vars: Seq<(Seq<char>, Seq<char>)>,
    depth: nat,
) -> Seq<(Seq<char>, Seq<char>)>
    decreases depth, vars.len(), 2nat,
{
    if vars.len() == 0 {
        Seq::empty()
    } else {
        let (k, v) = vars.last();
        let r = match rendered(cfg, g, env, v, Seq::empty(), depth) {
            Ok(s) => s,
            Err(_) => v,
        };
        rendered_vars(cfg, g, env, vars.drop_last(), depth).push((k, r))
    }
}

/// What the `snippet` helper writes for each name it resolves.
pub open spec fn snippet_table(
    cfg: HermitConfig,
    g: GlobalConfig,
    env: RenderEnv,
    vars: Seq<(Seq<char>, Seq<char>)>,
    depth: nat,
) -> Map<Seq<char>, Seq<char>>
    decreases depth, vars.len(), 1nat,
{
    Map::new(
        |s: Seq<char>| resolved_snippet(cfg, g, env, vars, s, depth) is Some,
        |s: Seq<char>| resolved_snippet(cfg, g, env, vars, s, depth)->0,
    )
}

/// A snippet rendered with the given variables, where its source is found
/// and the render succeeds within the depth left.
pub open spec fn resolved_snippet(
    cfg: HermitConfig,
    g: GlobalConfig,
    env: RenderEnv,
    vars: Seq<(Seq<char>, Seq<char>)>,
    name: Seq<char>,
    depth: nat,
) -> Option<Seq<char>>
    decreases depth, vars.len(), 0nat,
{
    if depth == 0 {
        None
    } else {
        match snippet_source(cfg, g, name) {
            Some(src) => match rendered(cfg, g, env, src, vars, (depth - 1) as nat) {
                Ok(s) => Some(s),
                Err(_) => None,
            },
            None => None,
        }
    }
}


/// What the `snippet` helper of a render resolves against: a file, all
/// files, the environment, the variables of the render and the nesting
/// depth left.
pub struct SnippetScope<'a> {
    pub cfg: &'a HermitConfig,
    pub global: &'a GlobalConfig,
    pub env: &'a RenderEnv,
    pub vars: &'a Vec<(String, String)>,
    pub depth: u64,
}

impl<'a> SnippetScope<'a> {
    /// Whether the scope can be rendered in.
    pub open spec fn wf(&self) -> bool {
        &&& self.cfg.wf()
        &&& self.global.wf()
        &&& self.cfg.has_directory()
    }

    /// What the helper writes for each name it resolves.
    pub open spec fn table(&self) -> Map<Seq<char>, Seq<char>> {
        snippet_table(*self.cfg, *self.global, *self.env, pairs_view(self.vars@), self.depth as nat)
    }

    /// The snippet `name` resolved in this scope.
    fn resolve(&self, name: &str) -> (r: Option<String>)
        requires
            self.wf(),
        ensures
            ({
                let res = resolved_snippet(
                    *self.cfg,
                    *self.global,
                    *self.env,
                    pairs_view(self.vars@),
                    name@,
                    self.depth as nat,
                );
                match r {
                    Some(s) => res == Some(s@),
                    None => res is None,
                }
            }),
    {
        self.cfg.snippet_at(self.global, self.env, self.vars, name, self.depth)
    }
}

/// `Handlebars::render_template` with the helper `helper` registered and
/// the sections of `data` as the data object: the helper writes what
/// `scope` resolves for the path of its first parameter, failing where
/// nothing resolves. Claimed: the result is the one named by
/// `handlebars_render`; a failure is given by its message.
#[verifier::external_body]
fn render_template(
    template: &str,
    helper: &str,
    data: Vec<(String, Vec<(String, String)>)>,
    scope: &SnippetScope,
) -> (r: Result<String, String>)
    requires
        scope.wf(),
        unique_keys(sections_view(data@)),
        forall|i: int| 0 <= i < data@.len() ==> unique_keys(pairs_view((#[trigger] data@[i]).1@)),
    ensures
        ({
            let res = handlebars_render(template@, helper@, sections_view(data@), scope.table());
            match r {
                Ok(s) => res == Ok::<Seq<char>, Seq<char>>(s@),
                Err(e) => res == Err::<Seq<char>, Seq<char>>(e@),
            }
        }),
{
    let mut reg = Handlebars::new();
    reg.register_helper(helper, Box::new(|h: &Helper, _: &Handlebars, _: &Context, _: &mut RenderContext, out: &mut dyn Output| -> HelperResult {
        let name = h.param(0).and_then(|p| p.relative_path()).ok_or(RenderErrorReason::ParamNotFoundForIndex("format", 0))?;
        let text = scope.resolve(name).ok_or(RenderErrorReason::Other("Failed to resolve snippet".to_string()))?;
        Ok(out.write(&text)?)
    }));
    let data: BTreeMap<String, BTreeMap<String, String>> = data.into_iter().map(|(k, v)| (k, v.into_iter().collect())).collect();
    reg.render_template(template, &data).map_err(|e| e.to_string())
}

proof fn lemma_section_map_update(s: Seq<(Seq<char>, Seq<char>)>, j: int, v: Seq<char>)
    requires
        unique_keys(s),
        0 <= j < s.len(),
    ensures
        section_map(s.update(j, (s[j].0, v))) == section_map(s).insert(s[j].0, v),
    decreases s.len(),
{
    let k = s[j].0;
    let u = s.update(j, (k, v));
    if j == s.len() - 1 {
        assert(u.drop_last() =~= s.drop_last());
        assert(section_map(u) =~= section_map(s).insert(k, v));
    } else {
        let d = s.drop_last();
        assert(u.drop_last() =~= d.update(j, (k, v)));
        assert(unique_keys(d)) by {
            assert forall|a: int, b: int| 0 <= a < b < d.len() implies (#[trigger] d[a]).0 != (#[trigger] d[b]).0 by {
                assert(s[a] == d[a] && s[b] == d[b]);
            }
        }
        assert(d[j] == s[j]);
        lemma_section_map_update(d, j, v);
        assert(s.last().0 != k);
        assert(u.last() == s.last());
        assert(section_map(u) =~= section_map(s).insert(k, v));
    }
}

/// The position of the pair named `k`, if any.
fn find_key(r: &Vec<(String, String)>, k: &str) -> (res: Option<usize>)
    ensures
        match res {
            Some(j) => j < r@.len() && pairs_view(r@)[j as int].0 == k@,
            None => forall|x: int| 0 <= x < r@.len() ==> (#[trigger] pairs_view(r@)[x]).0 != k@,
        },
{
    let mut j: usize = 0;
    while j < r.len()
        invariant
            j <= r.len(),
            forall|x: int| 0 <= x < j ==> (#[trigger] pairs_view(r@)[x]).0 != k@,
        decreases r.len() - j,
    {
        if text::str_eq(r[j].0.as_str(), k) {
            return Some(j);
        }
        j = j + 1;
    }
    None
}

/// The pairs with each name once, the last value of a name kept: the same
/// map (see `section_map`).
fn unique_pairs(p: &Vec<(String, String)>) -> (r: Vec<(String, String)>)
    ensures
        unique_keys(pairs_view(r@)),
        section_map(pairs_view(r@)) == section_map(pairs_view(p@)),
{
    let ghost pv = pairs_view(p@);
    let mut r: Vec<(String, String)> = Vec::new();
    let mut i: usize = 0;
    assert(pv.take(0) =~= Seq::<(Seq<char>, Seq<char>)>::empty());
    assert(pairs_view(r@) =~= Seq::<(Seq<char>, Seq<char>)>::empty());
    while i < p.len()
        invariant
            i <= p.len(),
            pv == pairs_view(p@),
            unique_keys(pairs_view(r@)),
            section_map(pairs_view(r@)) == section_map(pv.take(i as int)),
        decreases p.len() - i,
    {
        let ghost rv = pairs_view(r@);
        assert(pv.take(i + 1).drop_last() =~= pv.take(i as int));
        assert(pv.take(i + 1).last() == (p@[i as int].0@, p@[i as int].1@));
        let pos = find_key(&r, p[i].0.as_str());
        if let Some(j) = pos {
            r.set(j, (p[i].0.clone(), p[i].1.clone()));
            proof {
                assert(pairs_view(r@) =~= rv.update(j as int, (rv[j as int].0, p@[i as int].1@)));
                lemma_section_map_update(rv, j as int, p@[i as int].1@);
                assert forall|a: int, b: int| 0 <= a < b < pairs_view(r@).len() implies (#[trigger] pairs_view(r@)[a]).0
                    != (#[trigger] pairs_view(r@)[b]).0 by {
                    assert(rv[a].0 != rv[b].0);
                }
            }
        } else {
            r.push((p[i].0.clone(), p[i].1.clone()));
            proof {
                assert(pairs_view(r@) =~= rv.push((p@[i as int].0@, p@[i as int].1@)));
                assert(pairs_view(r@).drop_last() =~= rv);
                assert forall|a: int, b: int| 0 <= a < b < pairs_view(r@).len() implies (#[trigger] pairs_view(r@)[a]).0
                    != (#[trigger] pairs_view(r@)[b]).0 by {
                    if b < rv.len() {
                        assert(rv[a].0 != rv[b].0);
                    } else {
                        assert(rv[a].0 != p@[i as int].0@);
                    }
                }
            }
        }
        i = i + 1;
    }
    assert(pv.take(p.len() as int) =~= pv);
    r
}

/// A tilde expansion's home directory as plain text.
pub open spec fn home_view(h: Option<String>) -> Option<Seq<char>> {
    match h {
        Some(s) => Some(s@),
        None => None,
    }
}

/// The directory a path expands to for the file `cfg`: rendered as a
/// template (kept as given where that fails); then a leading `~/.config`,
/// `~/.local/share` or `~/.local/state` whose base directory the
/// environment sets has every occurrence replaced by it; otherwise tilde
/// expansion.
pub open spec fn expanded(cfg: HermitConfig, g: GlobalConfig, env: RenderEnv, dir: Seq<char>) -> Seq<char> {
    let d = match rendered(cfg, g, env, dir, Seq::empty(), snippet_budget(cfg, g) as nat) {
        Ok(s) => s,
        Err(_) => dir,
    };
    if text::starts_with(d, "~/.config"@) && env.xdg_config is Some {
        text::replace_all(d, "~/.config"@, env.xdg_config->0@)
    } else if text::starts_with(d, "~/.local/share"@) && env.xdg_data is Some {
        text::replace_all(d, "~/.local/share"@, env.xdg_data->0@)
    } else if text::starts_with(d, "~/.local/state"@) && env.xdg_state is Some {
        text::replace_all(d, "~/.local/state"@, env.xdg_state->0@)
    } else {
        paths::tilde(d, home_view(env.home))
    }
}

/// The entries of a string map as pairs, in key order.
pub fn pairs_of(m: &SortedMap<String, String>) -> (r: Vec<(String, String)>)
    requires
        m.wf(),
    ensures
        pairs_view(r@) == map_pairs(*m),
{
    let n = m.len();
    let mut r: Vec<(String, String)> = Vec::new();
    let mut i: usize = 0;
    while i < n
        invariant
            m.wf(),
            n == m.keys().len(),
            i <= n,
            pairs_view(r@) == map_pairs(*m).take(i as int),
        decreases n - i,
    {
        let ghost pre = r@;
        r.push((m.key(i).clone(), m.val(i).clone()));
        assert(pairs_view(r@) =~= pairs_view(pre).push((m.keys()[i as int]@, m.vals()[i as int]@)));
        assert(map_pairs(*m).take(i + 1) =~= map_pairs(*m).take(i as int).push(map_pairs(*m)[i as int]));
        i = i + 1;
    }
    assert(map_pairs(*m).take(n as int) =~= map_pairs(*m));
    r
}

/// The `tag` map of a template, from a tag set.
fn tag_pairs_of(ts: &TagSet) -> (r: Vec<(String, String)>)
    requires
        ts.wf(),
    ensures
        pairs_view(r@) == tag_pairs(ts.keys()),
{
    let n = ts.len();
    let mut r: Vec<(String, String)> = Vec::new();
    let mut i: usize = 0;
    while i < n
        invariant
            ts.wf(),
            n == ts.keys().len(),
            i <= n,
            pairs_view(r@) == tag_pairs(ts.keys().take(i as int)),
        decreases n - i,
    {
        let t = ts.key(i);
        assert(ts.keys().take(i + 1).drop_last() =~= ts.keys().take(i as int));
        assert(ts.keys().take(i + 1).last() == *t);
        match t.value() {
            Some(v) => {
                let ghost pre = r@;
                r.push((text::owned(t.name()), v.clone()));
                assert(pairs_view(r@) =~= pairs_view(pre).push((t.spec_name(), v@)));
            },
            None => {},
        }
        i = i + 1;
    }
    assert(ts.keys().take(n as int) =~= ts.keys());
    r
}

impl HermitConfig {
    /// The `dir` map of a template for this file.
    fn dirs_of(&self, global: &GlobalConfig, env: &RenderEnv) -> (r: Vec<(String, String)>)
        requires
            self.has_directory(),
        ensures
            pairs_view(r@) == dir_pairs(self.spec_directory(), global.spec_hermit_dir(), global.spec_home_dir(), *env),
    {
        let home = global.home_dir();
        let xdg_config = match &env.xdg_config {
            Some(v) => v.clone(),
            None => paths::join_path(home, ".config"),
        };
        let xdg_data = match &env.xdg_data {
            Some(v) => v.clone(),
            None => paths::join_path(paths::join_path(home, ".local").as_str(), "share"),
        };
        let xdg_state = match &env.xdg_state {
            Some(v) => v.clone(),
            None => paths::join_path(paths::join_path(home, ".local").as_str(), "state"),
        };
        let r = vec![
            (text::owned("this"), self.directory()),
            (text::owned("this_dir"), self.directory()),
            (text::owned("hermit"), text::owned(global.hermit_dir())),
            (text::owned("home"), text::owned(home)),
            (text::owned("xdg_config"), xdg_config),
            (text::owned("xdg_data"), xdg_data),
            (text::owned("xdg_state"), xdg_state),
        ];
        assert(pairs_view(r@) =~= dir_pairs(self.spec_directory(), global.spec_hermit_dir(), global.spec_home_dir(), *env));
        r
    }

    /// The nesting budget of snippets for this file.
    pub(crate) fn budget(&self, global: &GlobalConfig) -> (r: u64)
        requires
            self.wf(),
            global.wf(),
        ensures
            r == snippet_budget(*self, *global),
    {
        let n = (self.snippets.len() as u64).saturating_add(global.snippet_count() as u64);
        n.saturating_add(n).saturating_add(1)
    }

    /// Renders `content` with snippets nesting at most `depth` deep.
    pub(crate) fn render_at(
        &self,
        global: &GlobalConfig,
        env: &RenderEnv,
        content: &str,
        vars: &Vec<(String, String)>,
        depth: u64,
    ) -> (r: Result<String, String>)
        requires
            self.wf(),
            global.wf(),
            self.has_directory(),
        ensures
            ({
                let res = rendered(*self, *global, *env, content@, pairs_view(vars@), depth as nat);
                match r {
                    Ok(s) => res == Ok::<Seq<char>, Seq<char>>(s@),
                    Err(e) => res == Err::<Seq<char>, Seq<char>>(e@),
                }
            }),
        decreases depth, vars@.len(), 3nat,
    {
        let content = text::replace_char_str(content, '~', global.home_dir());
        let dirs = self.dirs_of(global, env);
        let rvars = self.render_vars(global, env, vars, depth);
        let tags = tag_pairs_of(global.all_detected_tags());
        let scope = SnippetScope { cfg: self, global, env, vars, depth };
        let data = vec![
            (text::owned("dir"), unique_pairs(&dirs)),
            (text::owned("var"), unique_pairs(&rvars)),
            (text::owned("tag"), unique_pairs(&tags)),
        ];
        proof {
            reveal_strlit("dir");
            reveal_strlit("var");
            reveal_strlit("tag");
            assert(sections_view(data@) =~= seq![
                ("dir"@, section_map(pairs_view(dirs@))),
                ("var"@, section_map(pairs_view(rvars@))),
                ("tag"@, section_map(pairs_view(tags@))),
            ]);
            assert("dir"@[0] != "var"@[0] && "dir"@[0] != "tag"@[0] && "var"@[0] != "tag"@[0]);
        }
        render_template(content.as_str(), "snippet", data, &scope)
    }

    /// The variables of a render, each rendered with no variables.
    fn render_vars(
        &self,
        global: &GlobalConfig,
        env: &RenderEnv,
        vars: &Vec<(String, String)>,
        depth: u64,
    ) -> (r: Vec<(String, String)>)
        requires
            self.wf(),
            global.wf(),
            self.has_directory(),
        ensures
            pairs_view(r@) == rendered_vars(*self, *global, *env, pairs_view(vars@), depth as nat),
        decreases depth, vars@.len(), 2nat,
    {
        let ghost pv = pairs_view(vars@);
        let empty: Vec<(String, String)> = Vec::new();
        assert(pairs_view(empty@) =~= Seq::<(Seq<char>, Seq<char>)>::empty());
        let n = vars.len();
        let mut r: Vec<(String, String)> = Vec::new();
        let mut i: usize = 0;
        while i < n
            invariant
                self.wf(),
                global.wf(),
                self.has_directory(),
                n == vars@.len(),
                pv == pairs_view(vars@),
                empty@.len() == 0,
                pairs_view(empty@) == Seq::<(Seq<char>, Seq<char>)>::empty(),
                i <= n,
                pairs_view(r@) == rendered_vars(*self, *global, *env, pv.take(i as int), depth as nat),
            decreases n - i,
        {
            let (k, v) = &vars[i];
            let value = match self.render_at(global, env, v.as_str(), &empty, depth) {
                Ok(s) => s,
                Err(_) => v.clone(),
            };
            let ghost pre = r@;
            r.push((k.clone(), value));
            proof {
                assert(pv.take(i + 1).drop_last() =~= pv.take(i as int));
                assert(pv.take(i + 1).last() == (k@, v@));
                assert(pairs_view(r@) =~= pairs_view(pre).push((k@, value@)));
            }
            i = i + 1;
        }
        assert(pv.take(n as int) =~= pv);
        r
    }

    /// The snippet `name` rendered with `vars`, nesting at most `depth` deep.
    fn snippet_at(
        &self,
        global: &GlobalConfig,
        env: &RenderEnv,
        vars: &Vec<(String, String)>,
        name: &str,
        depth: u64,
    ) -> (r: Option<String>)
        requires
            self.wf(),
            global.wf(),
            self.has_directory(),
        ensures
            ({
                let res = resolved_snippet(*self, *global, *env, pairs_view(vars@), name@, depth as nat);
                match r {
                    Some(s) => res == Some(s@),
                    None => res is None,
                }
            }),
    {
        if depth == 0 {
            return None;
        }
        let src: String = match self.snippets.get_str(name) {
            Some(s) => s.clone(),
            None => match global.get_snippet(name) {
                Some(s) => s.clone(),
                None => {
                    return None;
                },
            },
        };
        match self.render_at(global, env, src.as_str(), vars, depth - 1) {
            Ok(s) => Some(s),
            Err(_) => None,
        }
    }

    /// The snippet `lc_src`, from this file or else from all files, rendered
    /// with `variables` as `render_handlebars` renders (the same nesting
    /// budget); none where no such snippet exists or rendering fails.
    pub fn get_snippet(
        &self,
        global: &GlobalConfig,
        env: &RenderEnv,
        lc_src: &str,
        variables: &SortedMap<String, String>,
    ) -> (r: Option<String>)
        requires
            self.wf(),
            global.wf(),
            self.has_directory(),
            variables.wf(),
        ensures
            ({
                let res = resolved_snippet(
                    *self,
                    *global,
                    *env,
                    map_pairs(*variables),
                    lc_src@,
                    snippet_budget(*self, *global).saturating_add(1) as nat,
                );
                match r {
                    Some(s) => res == Some(s@),
                    None => res is None,
                }
            }),
            snippet_budget(*self, *global) < u64::MAX ==> match snippet_source(*self, *global, lc_src@) {
                Some(src) => match rendered(
                    *self,
                    *global,
                    *env,
                    src,
                    map_pairs(*variables),
                    snippet_budget(*self, *global) as nat,
                ) {
                    Ok(t) => r matches Some(x) && x@ == t,
                    Err(_) => r is None,
                },
                None => r is None,
            },
    {
        let vars = pairs_of(variables);
        let depth = self.budget(global).saturating_add(1);
        self.snippet_at(global, env, &vars, lc_src, depth)
    }

    /// Renders `content` as a template for this file (see `rendered`).
    pub fn render_handlebars(
        &self,
        global: &GlobalConfig,
        env: &RenderEnv,
        content: &str,
        variables: &SortedMap<String, String>,
    ) -> (r: Result<String, String>)
        requires
            self.wf(),
            global.wf(),
            self.has_directory(),
            variables.wf(),
        ensures
            ({
                let res = rendered(
                    *self,
                    *global,
                    *env,
                    content@,
                    map_pairs(*variables),
                    snippet_budget(*self, *global) as nat,
                );
                match r {
                    Ok(s) => res == Ok::<Seq<char>, Seq<char>>(s@),
                    Err(e) => res == Err::<Seq<char>, Seq<char>>(e@),
                }
            }),
    {
        let vars = pairs_of(variables);
        let depth = self.budget(global);
        self.render_at(global, env, content, &vars, depth)
    }

    /// Expands a directory of an entry (see `expanded`).
    pub fn expand_directory(&self, global: &GlobalConfig, env: &RenderEnv, dir: &str) -> (r: String)
        requires
            self.wf(),
            global.wf(),
            self.has_directory(),
        ensures
            r@ == expanded(*self, *global, *env, dir@),
    {
        let no_vars: SortedMap<String, String> = SortedMap::new();
        assert(map_pairs(no_vars) =~= Seq::<(Seq<char>, Seq<char>)>::empty());
        let d = match self.render_handlebars(global, env, dir, &no_vars) {
            Ok(s) => s,
            Err(_) => text::owned(dir),
        };
        proof {
            reveal_strlit("~/.config");
            reveal_strlit("~/.local/share");
            reveal_strlit("~/.local/state");
        }
        if text::starts_with_str(d.as_str(), "~/.config") && env.xdg_config.is_some() {
            match &env.xdg_config {
                Some(x) => text::replace_str(d.as_str(), "~/.config", x.as_str()),
                None => d,
            }
        } else if text::starts_with_str(d.as_str(), "~/.local/share") && env.xdg_data.is_some() {
            match &env.xdg_data {
                Some(x) => text::replace_str(d.as_str(), "~/.local/share", x.as_str()),
                None => d,
            }
        } else if text::starts_with_str(d.as_str(), "~/.local/state") && env.xdg_state.is_some() {
            match &env.xdg_state {
                Some(x) => text::replace_str(d.as_str(), "~/.local/state", x.as_str()),
                None => d,
            }
        } else {
            paths::expand_tilde(d.as_str(), &env.home)
        }
    }
}


/// The relative path `rel` under the home directory `home`, as text.
pub open spec fn under_home(home: Seq<char>, rel: Seq<char>) -> Seq<char> {
    if home.len() == 0 {
        rel
    } else if home.last() == '/' {
        home + rel
    } else {
        home + seq!['/'] + rel
    }
}

/// Joining a relative path to the home directory puts it under it.
proof fn lemma_join_home(home: Seq<char>, a: Seq<char>)
    requires
        a.len() > 0,
        a[0] != '/',
    ensures
        paths::join(home, a) == under_home(home, a),
        paths::join(home, a).len() > 0,
        paths::join(home, a).last() == a.last(),
{
}

/// Joining two relative parts in turn puts both, with a separator, under
/// the home directory.
proof fn lemma_join_twice(home: Seq<char>, a: Seq<char>, b: Seq<char>)
    requires
        a.len() > 0,
        a[0] != '/',
        a.last() != '/',
        b.len() > 0,
        b[0] != '/',
    ensures
        paths::join(paths::join(home, a), b) == under_home(home, a + seq!['/'] + b),
{
    lemma_join_home(home, a);
    let j = paths::join(home, a);
    assert(paths::join(j, b) == j + seq!['/'] + b);
    if home.len() == 0 {
        assert(j + seq!['/'] + b =~= a + seq!['/'] + b);
    } else if home.last() == '/' {
        assert(j + seq!['/'] + b =~= home + (a + seq!['/'] + b));
    } else {
        assert(j + seq!['/'] + b =~= home + seq!['/'] + (a + seq!['/'] + b));
    }
}

/// The `dir` values a template sees: the file's directory as `this` and
/// `this_dir`, the hermit and home directories, and each base directory as
/// the environment gives it or, where it gives none, its usual place under
/// the home directory: `.config`, `.local/share` for data and
/// `.local/state` for state.
pub proof fn law_dir_values(this: Seq<char>, hermit: Seq<char>, home: Seq<char>, env: RenderEnv)
    ensures
        ({
            let m = section_map(dir_pairs(this, hermit, home, env));
            &&& m.dom() =~= set![
                "this"@,
                "this_dir"@,
                "hermit"@,
                "home"@,
                "xdg_config"@,
                "xdg_data"@,
                "xdg_state"@,
            ]
            &&& m["this"@] == this
            &&& m["this_dir"@] == this
            &&& m["hermit"@] == hermit
            &&& m["home"@] == home
            &&& m["xdg_config"@] == match env.xdg_config {
                Some(s) => s@,
                None => under_home(home, ".config"@),
            }
            &&& m["xdg_data"@] == match env.xdg_data {
                Some(s) => s@,
                None => under_home(home, ".local/share"@),
            }
            &&& m["xdg_state"@] == match env.xdg_state {
                Some(s) => s@,
                None => under_home(home, ".local/state"@),
            }
        }),
{
    reveal_strlit("this");
    reveal_strlit("this_dir");
    reveal_strlit("hermit");
    reveal_strlit("home");
    reveal_strlit("xdg_config");
    reveal_strlit("xdg_data");
    reveal_strlit("xdg_state");
    reveal_strlit(".config");
    reveal_strlit(".local");
    reveal_strlit("share");
    reveal_strlit("state");
    reveal_strlit(".local/share");
    reveal_strlit(".local/state");
    lemma_join_home(home, ".config"@);
    lemma_join_twice(home, ".local"@, "share"@);
    lemma_join_twice(home, ".local"@, "state"@);
    assert(".local"@ + seq!['/'] + "share"@ =~= ".local/share"@);
    assert(".local"@ + seq!['/'] + "state"@ =~= ".local/state"@);
    let names = seq!["this"@, "this_dir"@, "hermit"@, "home"@, "xdg_config"@, "xdg_data"@, "xdg_state"@];
    assert(names[0][0] == 't' && names[0].len() == 4);
    assert(names[1][0] == 't' && names[1].len() == 8);
    assert(names[2][0] == 'h' && names[2].len() == 6);
    assert(names[3][0] == 'h' && names[3].len() == 4);
    assert(names[4].len() == 10);
    assert(names[5][0] == 'x' && names[5].len() == 8);
    assert(names[6].len() == 9);
    assert(forall|i: int, j: int| 0 <= i < j < 7 ==> names[i] != names[j]);
    let p = dir_pairs(this, hermit, home, env);
    assert forall|i: int| 0 <= i < 7 implies (#[trigger] p[i]).0 == names[i] by {}
    reveal_with_fuel(section_map, 8);
    assert(p.take(0) =~= Seq::<(Seq<char>, Seq<char>)>::empty());
    assert forall|k: int| 0 <= k <= 7 implies (#[trigger] section_map(p.take(k))).dom() =~= Set::new(
        |x: Seq<char>| exists|i: int| 0 <= i < k && names[i] == x,
    ) && forall|i: int| 0 <= i < k ==> section_map(p.take(k))[names[i]] == p[i].1 by {
        lemma_section_map_prefix(p, names, k);
    }
    assert(p.take(7) =~= p);
    assert(section_map(p).dom() =~= set!["this"@, "this_dir"@, "hermit"@, "home"@, "xdg_config"@, "xdg_data"@, "xdg_state"@]) by {
        assert forall|x: Seq<char>| section_map(p).dom().contains(x) implies set!["this"@, "this_dir"@, "hermit"@, "home"@, "xdg_config"@, "xdg_data"@, "xdg_state"@].contains(x) by {
            let i = choose|i: int| 0 <= i < 7 && names[i] == x;
        }
        assert forall|x: Seq<char>| set!["this"@, "this_dir"@, "hermit"@, "home"@, "xdg_config"@, "xdg_data"@, "xdg_state"@].contains(x) implies section_map(p).dom().contains(x) by {
            if x == names[0] {} else if x == names[1] {} else if x == names[2] {} else if x == names[3] {}
            else if x == names[4] {} else if x == names[5] {} else { assert(x == names[6]); }
        }
    }
    assert(section_map(p)[names[0]] == p[0].1);
    assert(section_map(p)[names[1]] == p[1].1);
    assert(section_map(p)[names[2]] == p[2].1);
    assert(section_map(p)[names[3]] == p[3].1);
    assert(section_map(p)[names[4]] == p[4].1);
    assert(section_map(p)[names[5]] == p[5].1);
    assert(section_map(p)[names[6]] == p[6].1);
}

/// The map of the first `k` pairs, whose names are distinct, holds each of
/// them under its name and nothing else.
proof fn lemma_section_map_prefix(p: Seq<(Seq<char>, Seq<char>)>, names: Seq<Seq<char>>, k: int)
    requires
        0 <= k <= p.len(),
        names.len() == p.len(),
        forall|i: int| 0 <= i < p.len() ==> (#[trigger] p[i]).0 == names[i],
        forall|i: int, j: int| 0 <= i < j < names.len() ==> names[i] != names[j],
    ensures
        section_map(p.take(k)).dom() =~= Set::new(|x: Seq<char>| exists|i: int| 0 <= i < k && names[i] == x),
        forall|i: int| 0 <= i < k ==> section_map(p.take(k))[names[i]] == p[i].1,
    decreases k,
{
    if k > 0 {
        lemma_section_map_prefix(p, names, k - 1);
        assert(p.take(k).drop_last() =~= p.take(k - 1));
        assert(p.take(k).last() == p[k - 1]);
        let m = section_map(p.take(k));
        assert forall|x: Seq<char>| m.dom().contains(x) <==> exists|i: int| 0 <= i < k && names[i] == x by {
            if x == names[k - 1] {
            } else if m.dom().contains(x) {
                let i = choose|i: int| 0 <= i < k - 1 && names[i] == x;
            } else {
                if exists|i: int| 0 <= i < k && names[i] == x {
                    let i = choose|i: int| 0 <= i < k && names[i] == x;
                    assert(i < k - 1);
                }
            }
        }
    }
}

} // verus!
