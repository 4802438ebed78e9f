//! Registry of discovered personas.
use vstd::prelude::*;

use crate::personas::types::LoadedPersona;
use crate::text::{
    lemma_lex_irreflexive, lemma_lex_total, lemma_lex_transitive, lex_lt, str_eq, str_lt,
};

verus! {

/// The persona's name.
pub open spec fn name_of(p: LoadedPersona) -> Seq<char> {
    p.config.persona.name@
}

/// The last persona in `s` named `n`.
pub open spec fn last_named(s: Seq<LoadedPersona>, n: Seq<char>) -> Option<LoadedPersona>
    decreases s.len(),
{
    if s.len() == 0 {
        None
    } else if name_of(s.last()) == n {
        Some(s.last())
    } else {
        last_named(s.drop_last(), n)
    }
}

/// No two personas in `s` share a name.
pub open spec fn distinct_names(s: Seq<LoadedPersona>) -> bool {
    forall|i: int, j: int|
        0 <= i < s.len() && 0 <= j < s.len() && i != j ==> name_of(#[trigger] s[i]) != name_of(
            #[trigger] s[j],
        )
}

/// With distinct names, the persona named `n` is the one at the index holding that name.
proof fn lemma_last_named_distinct(s: Seq<LoadedPersona>, n: Seq<char>)
    requires
        distinct_names(s),
    ensures
        forall|i: int| 0 <= i < s.len() && name_of(#[trigger] s[i]) == n ==> last_named(s, n) == Some(s[i]),
        (forall|i: int| 0 <= i < s.len() ==> name_of(#[trigger] s[i]) != n) ==> last_named(s, n) is None,
    decreases s.len(),
{
    if s.len() > 0 {
        let t = s.drop_last();
        assert(distinct_names(t)) by {
            assert forall|i: int, j: int|
                0 <= i < t.len() && 0 <= j < t.len() && i != j implies name_of(#[trigger] t[i]) != name_of(
                #[trigger] t[j],
            ) by {
                assert(t[i] == s[i] && t[j] == s[j]);
            }
        }
        lemma_last_named_distinct(t, n);
        assert forall|i: int| 0 <= i < s.len() && name_of(#[trigger] s[i]) == n implies last_named(
            s,
            n,
        ) == Some(s[i]) by {
            if i < s.len() - 1 {
                assert(t[i] == s[i]);
                assert(name_of(s[s.len() - 1]) != name_of(s[i]));
            }
        }
        if forall|i: int| 0 <= i < s.len() ==> name_of(#[trigger] s[i]) != n {
            assert(forall|i: int| 0 <= i < t.len() ==> name_of(#[trigger] t[i]) == name_of(s[i]));
            assert(name_of(s[s.len() - 1]) != n);
        }
    }
}

/// Registry of discovered persona configurations: a user-global directory and
/// an optional workspace directory whose personas win on name collision.
pub struct PersonaRegistry {
    personas: Vec<LoadedPersona>,
    user_dir: std::path::PathBuf,
    workspace_dir: Option<std::path::PathBuf>,
}

impl PersonaRegistry {
    /// The registered personas.
    pub closed spec fn entries(&self) -> Seq<LoadedPersona> {
        self.personas@
    }

    /// The user-global personas directory.
    pub closed spec fn spec_user_dir(&self) -> std::path::PathBuf {
        self.user_dir
    }

    /// The workspace personas directory, if any.
    pub closed spec fn spec_workspace_dir(&self) -> Option<std::path::PathBuf> {
        self.workspace_dir
    }

    /// No two registered personas share a name.
    pub open spec fn wf(&self) -> bool {
        distinct_names(self.entries())
    }

    /// The registered persona named `n`, if any.
    pub open spec fn lookup(&self, n: Seq<char>) -> Option<LoadedPersona> {
        last_named(self.entries(), n)
    }

    /// Create a new registry scanning the given user-global directory.
    pub fn new(user_dir: std::path::PathBuf) -> (r: Self)
        ensures
            r.wf(),
            r.entries().len() == 0,
            r.spec_user_dir() == user_dir,
            r.spec_workspace_dir() is None,
    {
        PersonaRegistry { personas: Vec::new(), user_dir, workspace_dir: None }
    }

    /// Add a workspace-specific personas directory.
    pub fn with_workspace_dir(self, dir: std::path::PathBuf) -> (r: Self)
        ensures
            r.entries() == self.entries(),
            r.spec_user_dir() == self.spec_user_dir(),
            r.spec_workspace_dir() == Some(dir),
    {
        PersonaRegistry {
            personas: self.personas,
            user_dir: self.user_dir,
            workspace_dir: Some(dir),
        }
    }

    /// The user-global personas directory.
    pub fn user_dir(&self) -> (r: &std::path::PathBuf)
        ensures
            *r == self.spec_user_dir(),
    {
        &self.user_dir
    }

    /// The workspace personas directory, if any.
    pub fn workspace_dir(&self) -> (r: Option<&std::path::PathBuf>)
        ensures
            match r {
                Some(d) => self.spec_workspace_dir() == Some(*d),
                None => self.spec_workspace_dir() is None,
            },
    {
        match &self.workspace_dir {
            Some(d) => Some(d),
            None => None,
        }
    }

    /// Index of the registered persona named `name`.
    fn position(&self, name: &str) -> (r: Option<usize>)
        requires
            self.wf(),
        ensures
            match r {
                Some(i) => i < self.entries().len() && name_of(self.entries()[i as int]) == name@,
                None => forall|i: int|
                    0 <= i < self.entries().len() ==> name_of(#[trigger] self.entries()[i]) != name@,
            },
    {
        let mut i: usize = 0;
        while i < self.personas.len()
            invariant
                i <= self.personas@.len(),
                forall|k: int| 0 <= k < i ==> name_of(#[trigger] self.personas@[k]) != name@,
            decreases self.personas.len() - i,
        {
            if str_eq(self.personas[i].name(), name) {
                return Some(i);
            }
            i = i + 1;
        }
        None
    }

    /// Registers `p`, replacing a persona of the same name.
    fn insert(&mut self, p: LoadedPersona)
        requires
            old(self).wf(),
        ensures
            final(self).wf(),
            final(self).spec_user_dir() == old(self).spec_user_dir(),
            final(self).spec_workspace_dir() == old(self).spec_workspace_dir(),
            forall|n: Seq<char>| #[trigger]
                final(self).lookup(n) == if n == name_of(p) {
                    Some(p)
                } else {
                    old(self).lookup(n)
                },
    {
        let ghost pn = name_of(p);
        let ghost olds = old(self).entries();
        let ghost slot: int;
        match self.position(p.name()) {
            Some(i) => {
                self.personas.set(i, p);
                proof {
                    slot = i as int;
                }
                assert(self.entries() == olds.update(slot, p));
            },
            None => {
                self.personas.push(p);
                proof {
                    slot = olds.len() as int;
                }
                assert(self.entries() == olds.push(p));
            },
        }
        let ghost news = self.entries();
        assert(news[slot] == p);
        assert(forall|k: int| 0 <= k < olds.len() && k != slot ==> news[k] == olds[k]);
        assert(slot < olds.len() ==> name_of(olds[slot]) == pn);
        assert(distinct_names(news)) by {
            assert forall|a: int, b: int|
                0 <= a < news.len() && 0 <= b < news.len() && a != b implies name_of(#[trigger] news[a])
                != name_of(#[trigger] news[b]) by {
                if a != slot && b != slot {
                    assert(news[a] == olds[a] && news[b] == olds[b]);
                } else if a == slot {
                    assert(news[b] == olds[b]);
                } else {
                    assert(news[a] == olds[a]);
                }
            }
        }
        assert forall|n: Seq<char>| #[trigger]
            self.lookup(n) == if n == pn {
                Some(p)
            } else {
                old(self).lookup(n)
            } by {
            lemma_last_named_distinct(olds, n);
            lemma_last_named_distinct(news, n);
            if n == pn {
                assert(name_of(news[slot]) == n);
            } else if exists|k: int| 0 <= k < olds.len() && name_of(#[trigger] olds[k]) == n {
                let k = choose|k: int| 0 <= k < olds.len() && name_of(#[trigger] olds[k]) == n;
                assert(k != slot);
                assert(news[k] == olds[k]);
                assert(name_of(news[k]) == n);
            } else {
                assert forall|k: int| 0 <= k < news.len() implies name_of(#[trigger] news[k]) != n by {
                    if k != slot {
                        assert(news[k] == olds[k]);
                    }
                }
            }
        }
    }

    /// Registers each persona of `found` in order (a later one replaces an
    /// earlier one of the same name).
    fn insert_all(&mut self, found: Vec<LoadedPersona>)
        requires
            old(self).wf(),
        ensures
            final(self).wf(),
            final(self).spec_user_dir() == old(self).spec_user_dir(),
            final(self).spec_workspace_dir() == old(self).spec_workspace_dir(),
            forall|n: Seq<char>| #[trigger]
                final(self).lookup(n) == match last_named(found@, n) {
                    Some(p) => Some(p),
                    None => old(self).lookup(n),
                },
    {
        let ghost all = found@;
        let ghost start = *old(self);
        for p in it: found
            invariant
                it.seq() == all,
                self.wf(),
                self.spec_user_dir() == start.spec_user_dir(),
                self.spec_workspace_dir() == start.spec_workspace_dir(),
                forall|n: Seq<char>| #[trigger]
                    self.lookup(n) == match last_named(all.take(it.index()), n) {
                        Some(q) => Some(q),
                        None => start.lookup(n),
                    },
        {
            let ghost done = it.index();
            let ghost prefix = all.take(done + 1);
            assert(prefix.drop_last() =~= all.take(done));
            assert(prefix.last() == p);
            self.insert(p);
        }
        assert(all.take(all.len() as int) =~= all);
    }

    /// Replaces the registered personas with those discovered in the user
    /// directory and in the workspace directory; a workspace persona wins
    /// over a user persona of the same name. Returns the registered names.
    pub fn install_discovered(
        &mut self,
        user_personas: Vec<LoadedPersona>,
        workspace_personas: Vec<LoadedPersona>,
    ) -> (r: Vec<String>)
        ensures
            final(self).wf(),
            final(self).spec_user_dir() == old(self).spec_user_dir(),
            final(self).spec_workspace_dir() == old(self).spec_workspace_dir(),
            forall|n: Seq<char>| #[trigger]
                final(self).lookup(n) == match last_named(workspace_personas@, n) {
                    Some(p) => Some(p),
                    None => last_named(user_personas@, n),
                },
            r@.len() == final(self).entries().len(),
            forall|i: int|
                0 <= i < r@.len() ==> #[trigger] r@[i]@ == name_of(final(self).entries()[i]),
    {
        self.personas = Vec::new();
        assert forall|n: Seq<char>| #[trigger] self.lookup(n) == None::<LoadedPersona> by {}
        self.insert_all(user_personas);
        self.insert_all(workspace_personas);
        self.names()
    }

    /// The registered names, in registration order.
    pub fn names(&self) -> (r: Vec<String>)
        ensures
            r@.len() == self.entries().len(),
            forall|i: int| 0 <= i < r@.len() ==> #[trigger] r@[i]@ == name_of(self.entries()[i]),
    {
        let mut out: Vec<String> = Vec::new();
        let mut i: usize = 0;
        while i < self.personas.len()
            invariant
                i <= self.personas@.len(),
                out@.len() == i,
                forall|k: int| 0 <= k < i ==> #[trigger] out@[k]@ == name_of(self.personas@[k]),
            decreases self.personas.len() - i,
        {
            out.push(self.personas[i].config.persona.name.clone());
            i = i + 1;
        }
        out
    }

    /// Get a persona by name.
    pub fn get(&self, name: &str) -> (r: Option<&LoadedPersona>)
        requires
            self.wf(),
        ensures
            match r {
                Some(p) => self.lookup(name@) == Some(*p),
                None => self.lookup(name@) is None,
            },
    {
        proof {
            lemma_last_named_distinct(self.entries(), name@);
        }
        match self.position(name) {
            Some(i) => Some(&self.personas[i]),
            None => None,
        }
    }

    /// List all available persona names with descriptions, sorted by name.
    pub fn list(&self) -> (r: Vec<(&str, &str)>)
        requires
            self.wf(),
        ensures
            r@.len() == self.entries().len(),
            sorted_by_name(r@),
            lists_exactly(r@, self.entries()),
    {
        let ghost es = self.entries();
        let mut out: Vec<(&str, &str)> = Vec::new();
        // `src[m]` is the entry that produced `out[m]`; `at[j]` is where entry `j` went.
        let ghost mut src: Seq<int> = Seq::empty();
        let ghost mut at: Seq<int> = Seq::empty();
        let mut k: usize = 0;
        while k < self.personas.len()
            invariant
                es == self.entries(),
                distinct_names(es),
                k <= es.len(),
                out@.len() == k,
                src.len() == k,
                at.len() == k,
                sorted_by_name(out@),
                forall|m: int|
                    0 <= m < out@.len() ==> 0 <= #[trigger] src[m] < k && listed(out@[m], es[src[m]]),
                forall|j: int|
                    0 <= j < k ==> 0 <= #[trigger] at[j] < out@.len() && listed(out@[at[j]], es[j]),
            decreases es.len() - k,
        {
            let p = &self.personas[k];
            let entry: (&str, &str) = (p.name(), p.description());
            assert(listed(entry, es[k as int]));
            let mut pos: usize = 0;
            while pos < out.len() && !str_lt(entry.0, out[pos].0)
                invariant
                    pos <= out@.len(),
                    forall|m: int| 0 <= m < pos ==> !lex_lt(entry.0@, #[trigger] out@[m].0@),
                decreases out@.len() - pos,
            {
                pos = pos + 1;
            }
            let ghost before = out@;
            assert forall|m: int| 0 <= m < pos implies lex_lt(#[trigger] before[m].0@, entry.0@) by {
                let j = src[m];
                assert(name_of(es[j]) != name_of(es[k as int]));
                lemma_lex_total(before[m].0@, entry.0@);
            }
            assert forall|m: int| pos <= m < before.len() implies lex_lt(
                entry.0@,
                #[trigger] before[m].0@,
            ) by {
                if m > pos {
                    lemma_lex_transitive(entry.0@, before[pos as int].0@, before[m].0@);
                }
            }
            out.insert(pos, entry);
            assert(out@ == before.insert(pos as int, entry));
            assert(sorted_by_name(out@)) by {
                assert forall|a: int, b: int|
                    0 <= a < b < out@.len() implies lex_lt(#[trigger] out@[a].0@, #[trigger] out@[b].0@) by {
                    if b < pos {
                        assert(out@[a] == before[a] && out@[b] == before[b]);
                    } else if b == pos {
                        assert(out@[a] == before[a]);
                    } else if a < pos {
                        assert(out@[a] == before[a] && out@[b] == before[b - 1]);
                        lemma_lex_transitive(before[a].0@, entry.0@, before[b - 1].0@);
                    } else if a == pos {
                        assert(out@[b] == before[b - 1]);
                    } else {
                        assert(out@[a] == before[a - 1] && out@[b] == before[b - 1]);
                    }
                }
            }
            proof {
                let old_src = src;
                let old_at = at;
                src = old_src.insert(pos as int, k as int);
                at = Seq::new(
                    (k + 1) as nat,
                    |j: int|
                        if j == k {
                            pos as int
                        } else if old_at[j] < pos {
                            old_at[j]
                        } else {
                            old_at[j] + 1
                        },
                );
                assert forall|m: int| 0 <= m < out@.len() implies 0 <= #[trigger] src[m] < k + 1
                    && listed(out@[m], es[src[m]]) by {
                    if m < pos {
                        assert(out@[m] == before[m] && src[m] == old_src[m]);
                    } else if m > pos {
                        assert(out@[m] == before[m - 1] && src[m] == old_src[m - 1]);
                    }
                }
                assert forall|j: int| 0 <= j < k + 1 implies 0 <= #[trigger] at[j] < out@.len()
                    && listed(out@[at[j]], es[j]) by {
                    if j < k {
                        if old_at[j] < pos {
                            assert(out@[old_at[j]] == before[old_at[j]]);
                        } else {
                            assert(out@[old_at[j] + 1] == before[old_at[j]]);
                        }
                    }
                }
            }
            k = k + 1;
        }
        proof {
            lemma_indexed_lists_exactly(out@, es, src, at);
        }
        out
    }
}

/// The entry lists the persona's name and description.
pub open spec fn listed(e: (&str, &str), p: LoadedPersona) -> bool {
    e.0@ == name_of(p) && e.1@ == p.config.persona.description@
}

/// The entry lists one of the personas.
pub open spec fn lists_one_of(e: (&str, &str), es: Seq<LoadedPersona>) -> bool {
    exists|j: int| 0 <= j < es.len() && listed(e, es[j])
}

/// One of the entries lists the persona.
pub open spec fn is_listed_in(out: Seq<(&str, &str)>, p: LoadedPersona) -> bool {
    exists|i: int| 0 <= i < out.len() && listed(out[i], p)
}

/// Each entry lists some persona, and each persona is listed by some entry.
pub open spec fn lists_exactly(out: Seq<(&str, &str)>, es: Seq<LoadedPersona>) -> bool {
    &&& forall|i: int| 0 <= i < out.len() ==> #[trigger] lists_one_of(out[i], es)
    &&& forall|j: int| 0 <= j < es.len() ==> #[trigger] is_listed_in(out, es[j])
}

/// Index maps in both directions between the entries and the personas make the
/// listing exact.
proof fn lemma_indexed_lists_exactly(
    out: Seq<(&str, &str)>,
    es: Seq<LoadedPersona>,
    src: Seq<int>,
    at: Seq<int>,
)
    requires
        src.len() == out.len(),
        at.len() == es.len(),
        forall|m: int|
            0 <= m < out.len() ==> 0 <= #[trigger] src[m] < es.len() && listed(out[m], es[src[m]]),
        forall|j: int|
            0 <= j < es.len() ==> 0 <= #[trigger] at[j] < out.len() && listed(out[at[j]], es[j]),
    ensures
        lists_exactly(out, es),
{
    assert forall|i: int| 0 <= i < out.len() implies #[trigger] lists_one_of(out[i], es) by {
        assert(listed(out[i], es[src[i]]));
    }
    assert forall|j: int| 0 <= j < es.len() implies #[trigger] is_listed_in(out, es[j]) by {
        assert(listed(out[at[j]], es[j]));
    }
}

/// The entries are in strictly increasing order of name.
pub open spec fn sorted_by_name(s: Seq<(&str, &str)>) -> bool {
    forall|a: int, b: int| 0 <= a < b < s.len() ==> lex_lt(#[trigger] s[a].0@, #[trigger] s[b].0@)
}

/// Every listed entry names a persona that lookup by that name finds, with the
/// listed description.
pub proof fn lemma_listed_entries_resolve(reg: PersonaRegistry, out: Seq<(&str, &str)>)
    requires
        reg.wf(),
        lists_exactly(out, reg.entries()),
    ensures
        forall|i: int|
            0 <= i < out.len() ==> (#[trigger] reg.lookup(out[i].0@) matches Some(p) && listed(
                out[i],
                p,
            )),
{
    assert forall|i: int| 0 <= i < out.len() implies (#[trigger] reg.lookup(out[i].0@) matches Some(
        p,
    ) && listed(out[i], p)) by {
        assert(lists_one_of(out[i], reg.entries()));
        let j = choose|j: int| 0 <= j < reg.entries().len() && listed(out[i], reg.entries()[j]);
        lemma_last_named_distinct(reg.entries(), out[i].0@);
        assert(name_of(reg.entries()[j]) == out[i].0@);
    }
}

/// Every registered persona is listed.
pub proof fn lemma_registered_personas_listed(
    reg: PersonaRegistry,
    out: Seq<(&str, &str)>,
    n: Seq<char>,
)
    requires
        reg.wf(),
        lists_exactly(out, reg.entries()),
        reg.lookup(n) is Some,
    ensures
        exists|i: int| 0 <= i < out.len() && out[i].0@ == n,
{
    lemma_last_named_distinct(reg.entries(), n);
    let p = reg.lookup(n)->0;
    if forall|j: int| 0 <= j < reg.entries().len() ==> name_of(#[trigger] reg.entries()[j]) != n {
        assert(reg.lookup(n) is None);
    }
    let j = choose|j: int| 0 <= j < reg.entries().len() && name_of(#[trigger] reg.entries()[j]) == n;
    assert(is_listed_in(out, reg.entries()[j]));
    let i = choose|i: int| 0 <= i < out.len() && listed(out[i], reg.entries()[j]);
    assert(out[i].0@ == n);
}

/// The names at positions up to `i` agree in two sorted listings of the same personas.
proof fn lemma_listing_names_agree(
    es: Seq<LoadedPersona>,
    a: Seq<(&str, &str)>,
    b: Seq<(&str, &str)>,
    i: int,
)
    requires
        sorted_by_name(a),
        sorted_by_name(b),
        lists_exactly(a, es),
        lists_exactly(b, es),
        a.len() == b.len(),
        i < a.len(),
    ensures
        forall|j: int| 0 <= j <= i ==> #[trigger] a[j].0@ == b[j].0@,
    decreases i,
{
    if i >= 0 {
        if i > 0 {
            lemma_listing_names_agree(es, a, b, i - 1);
        }
        let x = a[i].0@;
        let y = b[i].0@;
        if x != y {
            lemma_lex_total(x, y);
            // the smaller name also occurs in the other listing, at some position m
            if lex_lt(x, y) {
                assert(lists_one_of(a[i], es));
                let k = choose|k: int| 0 <= k < es.len() && listed(a[i], es[k]);
                assert(is_listed_in(b, es[k]));
                let m = choose|m: int| 0 <= m < b.len() && listed(b[m], es[k]);
                assert(b[m].0@ == x);
                if m < i {
                    assert(a[m].0@ == b[m].0@);
                    lemma_lex_irreflexive(x);
                    assert(lex_lt(a[m].0@, a[i].0@));
                } else if m > i {
                    assert(lex_lt(b[i].0@, b[m].0@));
                }
            } else {
                assert(lists_one_of(b[i], es));
                let k = choose|k: int| 0 <= k < es.len() && listed(b[i], es[k]);
                assert(is_listed_in(a, es[k]));
                let m = choose|m: int| 0 <= m < a.len() && listed(a[m], es[k]);
                assert(a[m].0@ == y);
                if m < i {
                    assert(a[m].0@ == b[m].0@);
                    lemma_lex_irreflexive(y);
                    assert(lex_lt(b[m].0@, b[i].0@));
                } else if m > i {
                    assert(lex_lt(a[i].0@, a[m].0@));
                }
            }
        }
    }
}

/// Listing is determined by the registered personas: two listings of the same
/// registry give the same names and descriptions in the same order. (`list`
/// takes the registry by shared reference, so listing leaves it, and every
/// lookup, unchanged.)
pub proof fn lemma_list_is_determined(
    reg: PersonaRegistry,
    a: Seq<(&str, &str)>,
    b: Seq<(&str, &str)>,
)
    requires
        reg.wf(),
        a.len() == reg.entries().len(),
        sorted_by_name(a),
        lists_exactly(a, reg.entries()),
        b.len() == reg.entries().len(),
        sorted_by_name(b),
        lists_exactly(b, reg.entries()),
    ensures
        forall|i: int| 0 <= i < a.len() ==> #[trigger] a[i].0@ == b[i].0@ && a[i].1@ == b[i].1@,
{
    let es = reg.entries();
    lemma_listing_names_agree(es, a, b, a.len() - 1);
    assert forall|i: int| 0 <= i < a.len() implies #[trigger] a[i].0@ == b[i].0@ && a[i].1@
        == b[i].1@ by {
        assert(a[i].0@ == b[i].0@);
        assert(lists_one_of(a[i], es));
        assert(lists_one_of(b[i], es));
        let k1 = choose|k: int| 0 <= k < es.len() && listed(a[i], es[k]);
        let k2 = choose|k: int| 0 <= k < es.len() && listed(b[i], es[k]);
        if k1 != k2 {
            assert(name_of(es[k1]) != name_of(es[k2]));
        }
    }
}

} // verus!
