use vstd::prelude::*;

use crate::render::{render, rendered_of, vars_view, TemplateError};

verus! {

/// The value stored under `k` in a list of (key, value) entries, if any.
/// The latest entry for a key wins; the caches below never hold two.
pub open spec fn lookup<K, V>(s: Seq<(K, V)>, k: K) -> Option<V>
    decreases s.len(),
{
    if s.len() == 0 {
        None
    } else if s.last().0 == k {
        Some(s.last().1)
    } else {
        lookup(s.drop_last(), k)
    }
}

/// Whether every key occurs at most once.
pub open spec fn keys_unique<K, V>(s: Seq<(K, V)>) -> bool {
    forall|i: int, j: int| 0 <= i < j < s.len() ==> s[i].0 != s[j].0
}

pub proof fn lemma_lookup_push<K, V>(s: Seq<(K, V)>, e: (K, V), k: K)
    ensures
        lookup(s.push(e), k) == (if e.0 == k { Some(e.1) } else { lookup(s, k) }),
{
    assert(s.push(e).drop_last() =~= s);
}


/// File contents read during one run, each path read at most once.
pub struct FileCache {
    pub entries: Vec<(String, String)>,
    /// How many times a path was read from storage.
    pub loads: Ghost<nat>,
}

impl FileCache {
    pub open spec fn view(&self) -> Seq<(Seq<char>, Seq<char>)> {
        self.entries@.map_values(|p: (String, String)| (p.0@, p.1@))
    }

    pub open spec fn wf(&self) -> bool {
        keys_unique(self@)
    }

    /// What is cached under `path`.
    pub open spec fn cached(&self, path: Seq<char>) -> Option<Seq<char>> {
        lookup(self@, path)
    }

    pub fn new() -> (r: FileCache)
        ensures
            r.wf(),
            r@.len() == 0,
            r.loads@ == 0,
    {
        FileCache { entries: Vec::new(), loads: Ghost(0) }
    }

    pub fn get(&self, path: &String) -> (r: Option<String>)
        ensures
            r matches Some(v) ==> self.cached(path@) == Some(v@),
            r is None ==> self.cached(path@) is None,
    {
        let mut i: usize = self.entries.len();
        assert(self@.subrange(0, i as int) =~= self@);
        while i > 0
            invariant
                i <= self.entries.len(),
                lookup(self@, path@) == lookup(self@.subrange(0, i as int), path@),
            decreases i,
        {
            let ghost pre = self@.subrange(0, i as int);
            assert(pre.drop_last() =~= self@.subrange(0, i - 1));
            if self.entries[i - 1].0 == *path {
                return Some(self.entries[i - 1].1.clone());
            }
            i = i - 1;
        }
        assert(self@.subrange(0, 0).len() == 0);
        None
    }

    /// The content cached under `path`; on a miss, `load` reads it once and
    /// a successful read is stored. An entry, once stored, never changes.
    pub fn get_or_load<F: FnOnce(String) -> Result<String, String>>(
        &mut self,
        path: &String,
        load: F,
    ) -> (r: Result<String, String>)
        requires
            old(self).wf(),
            load.requires((*path,)),
        ensures
            final(self).wf(),
            load_step(*old(self), path@, r, *final(self)),
            old(self).cached(path@) is None ==> load.ensures((*path,), r),
    {
        match self.get(path) {
            Some(v) => Ok(v),
            None => {
                let r = load(path.clone());
                self.loads = Ghost(self.loads@ + 1);
                if let Ok(s) = &r {
                    let ghost pre = self@;
                    proof {
                        assert forall|i: int| 0 <= i < pre.len() implies pre[i].0 != path@ by {
                            if pre[i].0 == path@ {
                                lemma_lookup_has(pre, i);
                            }
                        }
                    }
                    self.entries.push((path.clone(), s.clone()));
                    assert(self@ =~= old(self)@.push((path@, s@)));
                    assert forall|i: int, j: int| 0 <= i < j < self@.len() implies self@[i].0
                        != self@[j].0 by {
                        if j == self@.len() - 1 {
                            assert(pre[i].0 != path@);
                        }
                    }
                }
                r
            },
        }
    }
}

/// One call of `get_or_load` on `path`: a hit returns the stored content and
/// changes nothing; a miss reads once and stores a successful read.
pub open spec fn load_step(
    before: FileCache,
    path: Seq<char>,
    r: Result<String, String>,
    after: FileCache,
) -> bool {
    match before.cached(path) {
        Some(v) => {
            &&& r matches Ok(s) && s@ == v
            &&& after@ == before@
            &&& after.loads@ == before.loads@
        },
        None => {
            &&& after.loads@ == before.loads@ + 1
            &&& r matches Ok(s) ==> after@ == before@.push((path, s@))
            &&& r is Err ==> after@ == before@
        },
    }
}

/// Loading the same path again returns the same content, reads nothing and
/// leaves the cache as it was: over both calls storage is read at most once.
pub proof fn law_load_read_once(
    c0: FileCache,
    c1: FileCache,
    c2: FileCache,
    path: Seq<char>,
    r1: Result<String, String>,
    r2: Result<String, String>,
)
    requires
        load_step(c0, path, r1, c1),
        load_step(c1, path, r2, c2),
        r1 is Ok,
    ensures
        r2 is Ok && r2->Ok_0@ == r1->Ok_0@,
        c2@ == c1@,
        c2.loads@ == c1.loads@,
        c1.loads@ <= c0.loads@ + 1,
{
    if c0.cached(path) is None {
        lemma_lookup_push(c0@, (path, r1->Ok_0@), path);
    }
}

/// Any number of loads of one path, one after another, where the first
/// succeeds: all return the same content, and storage is read at most
/// once over all of them.
pub proof fn law_loads_read_once(
    caches: Seq<FileCache>,
    results: Seq<Result<String, String>>,
    path: Seq<char>,
)
    requires
        results.len() >= 1,
        caches.len() == results.len() + 1,
        forall|t: int| 0 <= t < results.len() ==> load_step(caches[t], path, #[trigger] results[t], caches[t + 1]),
        results[0] is Ok,
    ensures
        forall|t: int| 0 <= t < results.len() ==> (#[trigger] results[t]) is Ok && results[t]->Ok_0@ == results[0]->Ok_0@,
        caches.last().loads@ <= caches[0].loads@ + 1,
        caches.last()@ == caches[1]@,
    decreases results.len(),
{
    let n = results.len() as int;
    if n == 1 {
        assert(load_step(caches[0], path, results[0], caches[1]));
        if caches[0].cached(path) is None {}
    } else {
        let cs = caches.drop_last();
        let rs = results.drop_last();
        assert forall|t: int| 0 <= t < rs.len() implies load_step(cs[t], path, #[trigger] rs[t], cs[t + 1]) by {
            assert(load_step(caches[t], path, results[t], caches[t + 1]));
        }
        law_loads_read_once(cs, rs, path);
        assert(cs.last() == caches[n - 1]);
        assert(load_step(caches[0], path, results[0], caches[1]));
        assert(load_step(caches[n - 1], path, results[n - 1], caches[n]));
        if caches[0].cached(path) is None {
            lemma_lookup_push(caches[0]@, (path, results[0]->Ok_0@), path);
        }
        assert(caches[n - 1].cached(path) == caches[1].cached(path));
        assert forall|t: int| 0 <= t < results.len() implies (#[trigger] results[t]) is Ok && results[t]->Ok_0@
            == results[0]->Ok_0@ by {
            if t < n - 1 {
                assert(rs[t] == results[t]);
            }
        }
    }
}

/// When a key occurs in the list, the lookup finds a value.
pub proof fn lemma_lookup_has<K, V>(s: Seq<(K, V)>, i: int)
    requires
        0 <= i < s.len(),
    ensures
        lookup(s, s[i].0) is Some,
    decreases s.len(),
{
    if s.last().0 != s[i].0 {
        assert(i < s.len() - 1);
        assert(s.drop_last()[i] == s[i]);
        lemma_lookup_has(s.drop_last(), i);
    }
}

/// Whether two render contexts hold the same variables in the same order.
pub fn same_context(a: &Vec<(String, String)>, b: &Vec<(String, String)>) -> (r: bool)
    ensures
        r == (vars_view(a@) == vars_view(b@)),
{
    if a.len() != b.len() {
        assert(vars_view(a@).len() != vars_view(b@).len());
        return false;
    }
    let mut i: usize = 0;
    while i < a.len()
        invariant
            a.len() == b.len(),
            i <= a.len(),
            forall|k: int| 0 <= k < i ==> vars_view(a@)[k] == vars_view(b@)[k],
        decreases a.len() - i,
    {
        if a[i].0 != b[i].0 || a[i].1 != b[i].1 {
            assert(vars_view(a@)[i as int] != vars_view(b@)[i as int]);
            return false;
        }
        i = i + 1;
    }
    assert(vars_view(a@) =~= vars_view(b@));
    true
}

/// A copy of a context.
pub fn copy_vars(v: &Vec<(String, String)>) -> (r: Vec<(String, String)>)
    ensures
        r@ == v@,
{
    let mut r: Vec<(String, String)> = Vec::new();
    let mut i: usize = 0;
    while i < v.len()
        invariant
            i <= v.len(),
            r@ == v@.subrange(0, i as int),
        decreases v.len() - i,
    {
        r.push((v[i].0.clone(), v[i].1.clone()));
        i = i + 1;
        assert(r@ =~= v@.subrange(0, i as int));
    }
    assert(v@.subrange(0, i as int) =~= v@);
    r
}

/// The key of a render: a template's identity and the variables it is
/// rendered with.
pub type RenderKey = (Seq<char>, Seq<(Seq<char>, Seq<char>)>);

/// One rendered template.
pub struct Rendered {
    pub template: String,
    pub context: Vec<(String, String)>,
    pub text: String,
}

/// Rendered templates of one run, each (template, context) rendered at most
/// once.
pub struct RenderedFiles {
    pub entries: Vec<Rendered>,
    /// How many times a template was rendered.
    pub renders: Ghost<nat>,
}

impl RenderedFiles {
    pub open spec fn view(&self) -> Seq<(RenderKey, Seq<char>)> {
        self.entries@.map_values(|e: Rendered| ((e.template@, vars_view(e.context@)), e.text@))
    }

    pub open spec fn wf(&self) -> bool {
        keys_unique(self@)
    }

    /// What is cached for `template` rendered with `context`.
    pub open spec fn cached(&self, template: Seq<char>, context: Seq<(Seq<char>, Seq<char>)>) -> Option<
        Seq<char>,
    > {
        lookup(self@, (template, context))
    }

    pub fn new() -> (r: RenderedFiles)
        ensures
            r.wf(),
            r@.len() == 0,
            r.renders@ == 0,
    {
        RenderedFiles { entries: Vec::new(), renders: Ghost(0) }
    }

    pub fn get(&self, template: &String, context: &Vec<(String, String)>) -> (r: Option<String>)
        ensures
            r matches Some(v) ==> self.cached(template@, vars_view(context@)) == Some(v@),
            r is None ==> self.cached(template@, vars_view(context@)) is None,
    {
        let ghost key = (template@, vars_view(context@));
        let mut i: usize = self.entries.len();
        assert(self@.subrange(0, i as int) =~= self@);
        while i > 0
            invariant
                i <= self.entries.len(),
                key == (template@, vars_view(context@)),
                lookup(self@, key) == lookup(self@.subrange(0, i as int), key),
            decreases i,
        {
            let ghost pre = self@.subrange(0, i as int);
            assert(pre.drop_last() =~= self@.subrange(0, i - 1));
            let e = &self.entries[i - 1];
            assert(self@[i - 1] == ((e.template@, vars_view(e.context@)), e.text@));
            assert(pre.last() == self@[i - 1]);
            let t_eq = e.template == *template;
            let c_eq = same_context(&e.context, context);
            if t_eq && c_eq {
                assert(pre.last().0 == key);
                return Some(e.text.clone());
            }
            assert(pre.last().0 != key);
            i = i - 1;
        }
        assert(self@.subrange(0, 0).len() == 0);
        None
    }

    /// The text cached for `template_id` rendered with `context`; on a miss
    /// the template `text` is rendered once and a successful render stored.
    pub fn get_or_render(
        &mut self,
        template_id: &String,
        text: &String,
        context: &Vec<(String, String)>,
    ) -> (r: Result<String, TemplateError>)
        requires
            old(self).wf(),
        ensures
            final(self).wf(),
            render_step(*old(self), (template_id@, vars_view(context@)), text@, r, *final(self)),
    {
        match self.get(template_id, context) {
            Some(v) => Ok(v),
            None => {
                let r = render(text, context);
                self.renders = Ghost(self.renders@ + 1);
                if let Ok(s) = &r {
                    let ghost key = (template_id@, vars_view(context@));
                    let ghost pre = self@;
                    proof {
                        assert forall|i: int| 0 <= i < pre.len() implies pre[i].0 != key by {
                            if pre[i].0 == key {
                                lemma_lookup_has(pre, i);
                            }
                        }
                    }
                    self.entries.push(
                        Rendered { template: template_id.clone(), context: copy_vars(context), text: s.clone() },
                    );
                    assert(self@ =~= old(self)@.push((key, s@)));
                    assert forall|i: int, j: int| 0 <= i < j < self@.len() implies self@[i].0
                        != self@[j].0 by {
                        if j == self@.len() - 1 {
                            assert(pre[i].0 != key);
                        }
                    }
                }
                r
            },
        }
    }
}

/// One call of `get_or_render` under `key` with template `text`: a hit
/// returns the stored text and changes nothing; a miss renders once and
/// stores a successful render.
pub open spec fn render_step(
    before: RenderedFiles,
    key: RenderKey,
    text: Seq<char>,
    r: Result<String, TemplateError>,
    after: RenderedFiles,
) -> bool {
    match lookup(before@, key) {
        Some(v) => {
            &&& r matches Ok(s) && s@ == v
            &&& after@ == before@
            &&& after.renders@ == before.renders@
        },
        None => {
            &&& after.renders@ == before.renders@ + 1
            &&& match rendered_of(text, key.1) {
                Some(v) => r matches Ok(s) && s@ == v && after@ == before@.push((key, v)),
                None => r is Err && after@ == before@,
            }
        },
    }
}

/// Rendering one template with two different contexts keeps two entries,
/// each returned for its own context.
pub proof fn law_render_contexts_distinct(
    c0: RenderedFiles,
    c1: RenderedFiles,
    c2: RenderedFiles,
    template: Seq<char>,
    text: Seq<char>,
    ctx1: Seq<(Seq<char>, Seq<char>)>,
    ctx2: Seq<(Seq<char>, Seq<char>)>,
    r1: Result<String, TemplateError>,
    r2: Result<String, TemplateError>,
)
    requires
        render_step(c0, (template, ctx1), text, r1, c1),
        render_step(c1, (template, ctx2), text, r2, c2),
        ctx1 != ctx2,
        r1 is Ok,
        r2 is Ok,
    ensures
        c2.cached(template, ctx1) == Some(r1->Ok_0@),
        c2.cached(template, ctx2) == Some(r2->Ok_0@),
{
    if lookup(c0@, (template, ctx1)) is None {
        lemma_lookup_push(c0@, ((template, ctx1), r1->Ok_0@), (template, ctx1));
    }
    if lookup(c1@, (template, ctx2)) is None {
        lemma_lookup_push(c1@, ((template, ctx2), r2->Ok_0@), (template, ctx1));
        lemma_lookup_push(c1@, ((template, ctx2), r2->Ok_0@), (template, ctx2));
    }
}

/// Rendering with an identical context again returns the cached text and
/// renders nothing.
pub proof fn law_render_reuses_entry(
    c0: RenderedFiles,
    c1: RenderedFiles,
    c2: RenderedFiles,
    key: RenderKey,
    text: Seq<char>,
    r1: Result<String, TemplateError>,
    r2: Result<String, TemplateError>,
)
    requires
        render_step(c0, key, text, r1, c1),
        render_step(c1, key, text, r2, c2),
        r1 is Ok,
    ensures
        r2 is Ok && r2->Ok_0@ == r1->Ok_0@,
        c2@ == c1@,
        c2.renders@ == c1.renders@,
        c1.renders@ <= c0.renders@ + 1,
{
    if lookup(c0@, key) is None {
        lemma_lookup_push(c0@, (key, r1->Ok_0@), key);
    }
}

} // verus!
