//! Resolving all links in a path.

use crate::text::{any_is, chars, opt_text, rsplit_once, split, split_last, split_on, texts};
use vstd::prelude::*;

verus! {

/// The names of a path, one behind the other.
pub open spec fn names_text(names: Seq<Seq<char>>) -> Seq<char>
    decreases names.len(),
{
    if names.len() == 0 {
        Seq::empty()
    } else if names.len() == 1 {
        names[0]
    } else {
        names_text(names.drop_last()).push('/') + names.last()
    }
}

/// How a path is written, from the root or from where one is.
pub open spec fn path_text(absolute: bool, names: Seq<Seq<char>>) -> Seq<char> {
    if absolute {
        seq!['/'] + names_text(names)
    } else if names.len() == 0 {
        seq!['.']
    } else {
        names_text(names)
    }
}

/// Whether a path starts at the root.
pub open spec fn is_absolute(path: Seq<char>) -> bool {
    path.len() > 0 && path[0] == '/'
}

/// A path on the way to being resolved.
#[verifier::ext_equal]
pub struct Walk {
    /// Whether it starts at the root.
    pub absolute: bool,
    /// The names resolved.
    pub done: Seq<Seq<char>>,
    /// The names to resolve; `None` where what a link leads to ends.
    pub rest: Seq<Option<Seq<char>>>,
    /// The links being followed.
    pub open: Seq<Seq<char>>,
}

/// The names of a path, to be resolved.
pub open spec fn to_resolve(path: Seq<char>) -> Seq<Option<Seq<char>>> {
    split_on(path, '/').map_values(|name: Seq<char>| Some(name))
}

/// The names of what a path is in.
pub open spec fn parent(absolute: bool, names: Seq<Seq<char>>) -> Seq<Seq<char>> {
    if names.len() > 0 && names.last() != seq!['.', '.'] {
        names.drop_last()
    } else if absolute {
        names
    } else {
        names.push(seq!['.', '.'])
    }
}

/// The links being followed, once what one leads to is used up.
pub open spec fn left(open: Seq<Seq<char>>) -> Seq<Seq<char>> {
    if open.len() > 0 {
        open.drop_last()
    } else {
        open
    }
}

/// A path up to the next name that may be a link.
pub open spec fn settled(w: Walk) -> Walk
    decreases w.rest.len(),
{
    if w.rest.len() == 0 {
        w
    } else {
        match w.rest[0] {
            None => settled(Walk { rest: w.rest.drop_first(), open: left(w.open), ..w }),
            Some(name) => if name.len() == 0 || name == seq!['.'] {
                settled(Walk { rest: w.rest.drop_first(), ..w })
            } else if name == seq!['.', '.'] {
                settled(Walk { rest: w.rest.drop_first(), done: parent(w.absolute, w.done), ..w })
            } else {
                w
            },
        }
    }
}

/// The path that may be a link.
pub open spec fn here(w: Walk) -> Seq<char> {
    path_text(w.absolute, w.done.push(w.rest[0]->0))
}

/// A path, once it is known that what may be a link is none.
pub open spec fn passed(w: Walk) -> Walk {
    settled(Walk { done: w.done.push(w.rest[0]->0), rest: w.rest.drop_first(), ..w })
}

/// A path, once it is known where a link in it leads: from the root, or from
/// what the link is in.
pub open spec fn followed(w: Walk, target: Seq<char>) -> Walk {
    settled(
        Walk {
            absolute: w.absolute || is_absolute(target),
            done: if is_absolute(target) {
                Seq::empty()
            } else {
                w.done
            },
            rest: to_resolve(target).push(None) + w.rest.drop_first(),
            open: w.open.push(here(w)),
        },
    )
}

/// Whether every name resolved is known to be no link.
pub open spec fn is_free_of_links(w: Walk, no_links: Set<Seq<char>>) -> bool {
    forall|k: int|
        #![trigger w.done.take(k)]
        0 < k <= w.done.len() ==> w.done[k - 1] == seq!['.', '.'] || no_links.contains(
            path_text(w.absolute, w.done.take(k)),
        )
}

proof fn lemma_settled_stays_free(w: Walk, no_links: Set<Seq<char>>)
    requires
        is_free_of_links(w, no_links),
    ensures
        is_free_of_links(settled(w), no_links),
    decreases w.rest.len(),
{
    if w.rest.len() > 0 {
        match w.rest[0] {
            None => {
                lemma_settled_stays_free(Walk { rest: w.rest.drop_first(), open: left(w.open), ..w }, no_links);
            },
            Some(name) => {
                if name.len() == 0 || name == seq!['.'] {
                    lemma_settled_stays_free(Walk { rest: w.rest.drop_first(), ..w }, no_links);
                } else if name == seq!['.', '.'] {
                    let up = Walk { rest: w.rest.drop_first(), done: parent(w.absolute, w.done), ..w };
                    assert forall|k: int| #![trigger up.done.take(k)] 0 < k <= up.done.len() implies up.done[k - 1] == seq![
                        '.',
                        '.',
                    ] || no_links.contains(path_text(up.absolute, up.done.take(k))) by {
                        if k <= w.done.len() {
                            assert(up.done.take(k) =~= w.done.take(k));
                        }
                    }
                    lemma_settled_stays_free(up, no_links);
                }
            },
        }
    }
}

/// What a resolved path lies in; the root lies in nothing.
pub open spec fn directory_of(path: Seq<char>) -> Option<Seq<char>> {
    match split_last(path, '/') {
        Some((directory, name)) => if directory.len() > 0 {
            Some(directory)
        } else if name.len() > 0 {
            Some(seq!['/'])
        } else {
            None
        },
        None => if path.len() > 0 {
            Some(Seq::empty())
        } else {
            None
        },
    }
}

/// What a resolved path lies in; the root lies in nothing.
pub fn directory(path: &str) -> (r: Option<String>)
    ensures
        opt_text(r) == directory_of(path@),
{
    match rsplit_once(path, '/') {
        Some((directory, name)) => if chars(directory.as_str()).len() > 0 {
            Some(directory)
        } else if chars(name.as_str()).len() > 0 {
            let mut root: String = String::new();
            root.push('/');
            assert(root@ =~= seq!['/']);
            Some(root)
        } else {
            None
        },
        None => if chars(path).len() > 0 {
            let here: String = String::new();
            assert(here@ =~= Seq::<char>::empty());
            Some(here)
        } else {
            None
        },
    }
}

/// What is to be done next to resolve a path.
#[derive(Debug)]
pub enum RealPathStep {
    /// See whether that path is a link, and where it leads.
    Look(String),
    /// All links are resolved.
    Resolved(String),
}

/// A link leads back to itself.
#[derive(Debug, Clone, Copy, PartialEq, Eq, Structural)]
pub struct CircularLink;

impl CircularLink {
    /// The error, written for a reader.
    pub fn text(&self) -> (s: String)
        ensures
            s@ == "Circular symlink detected"@,
    {
        "Circular symlink detected".to_owned()
    }
}

/// Resolves all links in a path, name by name.
pub struct RealPath {
    absolute: bool,
    done: Vec<String>,
    /// The names to resolve, from the last to the first.
    rest: Vec<Option<String>>,
    open: Vec<String>,
    no_links: Ghost<Set<Seq<char>>>,
}

/// The names to resolve, from the first to the last.
spec fn rest_of(rest: Seq<Option<String>>) -> Seq<Option<Seq<char>>> {
    Seq::new(rest.len(), |i: int| opt_text(rest[rest.len() - 1 - i]))
}

fn is_dots(name: &str) -> (n: usize)
    ensures
        n == (if name@.len() == 0 {
            0int
        } else if name@ == seq!['.'] {
            1
        } else if name@ == seq!['.', '.'] {
            2
        } else {
            3
        }),
{
    let v: Vec<char> = chars(name);
    if v.len() == 0 {
        0
    } else if v.len() == 1 && v[0] == '.' {
        assert(name@ =~= seq!['.']);
        1
    } else if v.len() == 2 && v[0] == '.' && v[1] == '.' {
        assert(name@ =~= seq!['.', '.']);
        2
    } else {
        3
    }
}

fn starts_at_root(path: &str) -> (r: bool)
    ensures
        r == is_absolute(path@),
{
    let v: Vec<char> = chars(path);
    v.len() > 0 && v[0] == '/'
}

fn write_path(absolute: bool, names: &Vec<String>, last: Option<&String>) -> (s: String)
    ensures
        s@ == path_text(
            absolute,
            match last {
                Some(name) => texts(names@).push(name@),
                None => texts(names@),
            },
        ),
{
    let ghost all = match last {
        Some(name) => texts(names@).push(name@),
        None => texts(names@),
    };
    let mut s: String = String::new();
    let mut i: usize = 0;
    assert(all.take(0) =~= Seq::<Seq<char>>::empty());
    while i < names.len()
        invariant
            i <= names@.len(),
            all.len() >= names@.len(),
            all.take(names@.len() as int) == texts(names@),
            s@ == names_text(all.take(i as int)),
        decreases names@.len() - i,
    {
        assert(all.take(i + 1).drop_last() =~= all.take(i as int));
        assert(all.take(names@.len() as int)[i as int] == names@[i as int]@);
        if i > 0 {
            s.push('/');
        }
        s.append(names[i].as_str());
        assert(s@ =~= names_text(all.take(i + 1)));
        i = i + 1;
    }
    if let Some(name) = last {
        assert(all.drop_last() =~= all.take(i as int));
        if i > 0 {
            s.push('/');
        }
        s.append(name.as_str());
        assert(s@ =~= names_text(all));
    } else {
        assert(all.take(i as int) =~= all);
    }
    if absolute {
        let mut path: String = String::new();
        path.push('/');
        path.append(s.as_str());
        assert(path@ =~= seq!['/'] + names_text(all));
        path
    } else if names.len() == 0 && last.is_none() {
        s.push('.');
        assert(s@ =~= seq!['.']);
        s
    } else {
        s
    }
}

fn push_names(rest: &mut Vec<Option<String>>, path: &str)
    ensures
        rest_of(final(rest)@) == to_resolve(path@) + rest_of(old(rest)@),
{
    let mut names: Vec<String> = split(path, '/');
    let ghost all = names@;
    let ghost before = rest@;
    assert(all.skip(all.len() as int) =~= Seq::<String>::empty());
    assert(texts(all) == split_on(path@, '/'));
    while names.len() > 0
        invariant
            names@.len() <= all.len(),
            names@ == all.take(names@.len() as int),
            rest@.len() == before.len() + all.len() - names@.len(),
            forall|i: int| 0 <= i < before.len() ==> rest@[i] == before[i],
            forall|i: int|
                0 <= i < all.len() - names@.len() ==> #[trigger] rest@[before.len() + i] == Some(all[all.len() - 1 - i]),
        decreases names@.len(),
    {
        let ghost n = names@.len();
        let ghost held = rest@;
        if let Some(name) = names.pop() {
            assert(name == all[n - 1]);
            rest.push(Some(name));
            assert(names@ =~= all.take(n - 1));
            assert forall|i: int| 0 <= i < all.len() - names@.len() implies #[trigger] rest@[before.len() + i] == Some(
                all[all.len() - 1 - i],
            ) by {
                if i < all.len() - n {
                    assert(rest@[before.len() + i] == held[before.len() + i]);
                }
            }
        }
    }
    proof {
        let now = rest_of(rest@);
        let then = to_resolve(path@) + rest_of(before);
        assert forall|k: int| 0 <= k < now.len() implies now[k] == then[k] by {
            if k < all.len() {
                assert(rest@[before.len() + (all.len() - 1 - k)] == Some(all[k]));
                assert(texts(all)[k] == all[k]@);
            } else {
                assert(rest@[rest@.len() - 1 - k] == before[rest@.len() - 1 - k]);
            }
        }
        assert(now =~= then);
    }
}

impl RealPath {
    /// The path on its way.
    pub closed spec fn walk(self) -> Walk {
        Walk {
            absolute: self.absolute,
            done: texts(self.done@),
            rest: rest_of(self.rest@),
            open: texts(self.open@),
        }
    }

    /// The paths that are known to be no links.
    pub closed spec fn no_links(self) -> Set<Seq<char>> {
        self.no_links@
    }

    /// The path is resolved up to a name that may be a link, and no name before
    /// that is one.
    pub open spec fn wf(self) -> bool {
        &&& settled(self.walk()) == self.walk()
        &&& is_free_of_links(self.walk(), self.no_links())
    }

    /// Starts to resolve a path.
    pub fn new(path: String) -> (r: RealPath)
        ensures
            r.wf(),
            r.walk() == settled(
                Walk {
                    absolute: is_absolute(path@),
                    done: Seq::empty(),
                    rest: to_resolve(path@),
                    open: Seq::empty(),
                },
            ),
            r.no_links() == Set::<Seq<char>>::empty(),
    {
        let mut rest: Vec<Option<String>> = Vec::new();
        push_names(&mut rest, path.as_str());
        let mut r = RealPath {
            absolute: starts_at_root(path.as_str()),
            done: Vec::new(),
            rest,
            open: Vec::new(),
            no_links: Ghost(Set::empty()),
        };
        proof {
            assert(texts(r.done@) =~= Seq::<Seq<char>>::empty());
            assert(texts(r.open@) =~= Seq::<Seq<char>>::empty());
            assert(rest_of(Seq::<Option<String>>::empty()) =~= Seq::<Option<Seq<char>>>::empty());
            assert(rest_of(r.rest@) =~= to_resolve(path@));
            lemma_settled_stays_free(r.walk(), r.no_links());
        }
        r.settle();
        r
    }

    /// Goes up to the next name that may be a link.
    fn settle(&mut self)
        ensures
            final(self).walk() == settled(old(self).walk()),
            settled(final(self).walk()) == final(self).walk(),
            final(self).no_links() == old(self).no_links(),
    {
        let ghost first = self.walk();
        while self.rest.len() > 0
            invariant
                settled(self.walk()) == settled(first),
                self.no_links() == old(self).no_links(),
            ensures
                settled(self.walk()) == settled(first),
                settled(self.walk()) == self.walk(),
                self.no_links() == old(self).no_links(),
            decreases self.rest@.len(),
        {
            let ghost w = self.walk();
            let n: usize = self.rest.len();
            assert(w.rest[0] == opt_text(self.rest@[n - 1]));
            let kind: usize = match &self.rest[n - 1] {
                None => 4,
                Some(name) => is_dots(name.as_str()),
            };
            if kind == 3 {
                break;
            }
            let _ = self.rest.pop();
            assert(rest_of(self.rest@) =~= w.rest.drop_first());
            if kind == 4 {
                let ghost opened = texts(self.open@);
                let _ = self.open.pop();
                assert(texts(self.open@) =~= left(opened));
            } else if kind == 2 {
                let ghost names = texts(self.done@);
                let at_dots: bool = self.done.len() > 0 && is_dots(self.done[self.done.len() - 1].as_str()) == 2;
                assert(names.len() > 0 ==> names.last() == self.done@[self.done@.len() - 1]@);
                if self.done.len() > 0 && !at_dots {
                    let _ = self.done.pop();
                    assert(texts(self.done@) =~= names.drop_last());
                } else if !self.absolute {
                    let mut dots: String = String::new();
                    dots.push('.');
                    dots.push('.');
                    assert(dots@ =~= seq!['.', '.']);
                    self.done.push(dots);
                    assert(texts(self.done@) =~= names.push(seq!['.', '.']));
                }
                assert(texts(self.done@) == parent(w.absolute, w.done));
            }
        }
    }

    /// What is to be done next. A path that is resolved has no link in it.
    pub fn step(&self) -> (step: RealPathStep)
        requires
            self.wf(),
        ensures
            match step {
                RealPathStep::Look(path) => self.walk().rest.len() > 0 && path@ == here(self.walk()),
                RealPathStep::Resolved(path) => {
                    &&& self.walk().rest.len() == 0
                    &&& path@ == path_text(self.walk().absolute, self.walk().done)
                    &&& is_free_of_links(self.walk(), self.no_links())
                },
            },
    {
        if self.rest.len() == 0 {
            return RealPathStep::Resolved(write_path(self.absolute, &self.done, None));
        }
        let n: usize = self.rest.len();
        assert(self.walk().rest[0] == opt_text(self.rest@[n - 1]));
        match &self.rest[n - 1] {
            Some(name) => RealPathStep::Look(write_path(self.absolute, &self.done, Some(name))),
            None => {
                proof {
                    lemma_no_end_first(self.walk());
                    assert(false);
                }
                vstd::pervasive::unreached()
            },
        }
    }

    /// Goes on from the path that was to be looked at; `target` is `None` where
    /// it is no link. A link that is being followed already leads back to
    /// itself.
    pub fn follow(&mut self, target: Option<String>) -> (r: Result<(), CircularLink>)
        requires
            old(self).wf(),
            old(self).walk().rest.len() > 0,
        ensures
            final(self).wf(),
            match target {
                None => {
                    &&& r is Ok
                    &&& final(self).walk() == passed(old(self).walk())
                    &&& final(self).no_links() == old(self).no_links().insert(here(old(self).walk()))
                },
                Some(t) => {
                    &&& r is Err <==> old(self).walk().open.contains(here(old(self).walk()))
                    &&& r is Ok ==> final(self).walk() == followed(old(self).walk(), t@)
                    &&& r is Err ==> final(self).walk() == old(self).walk()
                    &&& final(self).no_links() == old(self).no_links()
                },
            },
    {
        let ghost w = self.walk();
        let n: usize = self.rest.len();
        proof {
            lemma_no_end_first(w);
            assert(w.rest[0] == opt_text(self.rest@[n - 1]));
        }
        let name: String = match &self.rest[n - 1] {
            Some(name) => name.clone(),
            None => {
                proof {
                    assert(false);
                }
                vstd::pervasive::unreached()
            },
        };
        let path: String = write_path(self.absolute, &self.done, Some(&name));
        assert(path@ == here(w));
        let target: String = match target {
            None => {
                let _ = self.rest.pop();
                assert(rest_of(self.rest@) =~= w.rest.drop_first());
                self.done.push(name);
                assert(texts(self.done@) =~= w.done.push(name@));
                proof {
                    self.no_links@ = self.no_links@.insert(path@);
                    lemma_one_more_name(w, old(self).no_links());
                    lemma_settled_stays_free(self.walk(), self.no_links());
                }
                self.settle();
                return Ok(());
            },
            Some(target) => target,
        };
        if any_is(&self.open, path.as_str()) {
            return Err(CircularLink);
        }
        let _ = self.rest.pop();
        assert(rest_of(self.rest@) =~= w.rest.drop_first());
        self.rest.push(None);
        assert(rest_of(self.rest@) =~= seq![None::<Seq<char>>] + w.rest.drop_first());
        push_names(&mut self.rest, target.as_str());
        assert(rest_of(self.rest@) =~= to_resolve(target@).push(None) + w.rest.drop_first());
        self.open.push(path);
        assert(texts(self.open@) =~= w.open.push(here(w)));
        if starts_at_root(target.as_str()) {
            self.absolute = true;
            self.done = Vec::new();
            assert(texts(self.done@) =~= Seq::<Seq<char>>::empty());
        }
        proof {
            lemma_settled_stays_free(self.walk(), self.no_links());
        }
        self.settle();
        Ok(())
    }
}

/// A path that is resolved has no link in it, whatever the links are, where
/// what was said to be no link is none. (A `..` is never one.)
pub proof fn a_resolved_path_has_no_links(r: RealPath, links: Set<Seq<char>>)
    requires
        r.wf(),
        r.walk().rest.len() == 0,
        forall|path: Seq<char>| #[trigger] r.no_links().contains(path) ==> !links.contains(path),
    ensures
        forall|k: int|
            #![trigger r.walk().done.take(k)]
            0 < k <= r.walk().done.len() ==> r.walk().done[k - 1] == seq!['.', '.'] || !links.contains(
                path_text(r.walk().absolute, r.walk().done.take(k)),
            ),
{
}

proof fn lemma_one_more_name(w: Walk, no_links: Set<Seq<char>>)
    requires
        is_free_of_links(w, no_links),
        w.rest.len() > 0,
    ensures
        is_free_of_links(
            Walk { done: w.done.push(w.rest[0]->0), rest: w.rest.drop_first(), ..w },
            no_links.insert(here(w)),
        ),
{
    let now = Walk { done: w.done.push(w.rest[0]->0), rest: w.rest.drop_first(), ..w };
    assert forall|k: int| #![trigger now.done.take(k)] 0 < k <= now.done.len() implies now.done[k - 1] == seq!['.', '.']
        || no_links.insert(here(w)).contains(path_text(now.absolute, now.done.take(k))) by {
        if k <= w.done.len() {
            assert(now.done.take(k) =~= w.done.take(k));
        } else {
            assert(now.done.take(k) =~= now.done);
        }
    }
}

/// A path that is settled begins with a name.
proof fn lemma_no_end_first(w: Walk)
    requires
        settled(w) == w,
        w.rest.len() > 0,
    ensures
        w.rest[0] is Some,
{
    if w.rest[0] is None {
        lemma_settled_is_shorter(Walk { rest: w.rest.drop_first(), open: left(w.open), ..w });
    }
}

proof fn lemma_settled_is_shorter(w: Walk)
    ensures
        settled(w).rest.len() <= w.rest.len(),
    decreases w.rest.len(),
{
    if w.rest.len() > 0 {
        match w.rest[0] {
            None => {
                lemma_settled_is_shorter(Walk { rest: w.rest.drop_first(), open: left(w.open), ..w });
            },
            Some(name) => {
                lemma_settled_is_shorter(Walk { rest: w.rest.drop_first(), ..w });
                lemma_settled_is_shorter(
                    Walk { rest: w.rest.drop_first(), done: parent(w.absolute, w.done), ..w },
                );
            },
        }
    }
}

/// A name that stands for itself in a path.
pub open spec fn is_plain_name(name: Seq<char>) -> bool {
    name.len() > 0 && name != seq!['.'] && name != seq!['.', '.'] && !name.contains('/')
}

/// A path is settled at a name that may be a link, or at its end; to settle it
/// again changes nothing.
pub proof fn settled_paths_begin_with_a_name(w: Walk)
    ensures
        settled(w).rest.len() > 0 ==> (settled(w).rest[0] matches Some(name) && name.len() > 0 && name != seq!['.'] && name
            != seq!['.', '.']),
        settled(settled(w)) == settled(w),
        settled(w).absolute == w.absolute,
        settled(w).rest.len() <= w.rest.len(),
        settled(w).rest == w.rest.skip(w.rest.len() - settled(w).rest.len()),
    decreases w.rest.len(),
{
    if w.rest.len() > 0 {
        let n = w.rest.len();
        match w.rest[0] {
            None => {
                let v = Walk { rest: w.rest.drop_first(), open: left(w.open), ..w };
                settled_paths_begin_with_a_name(v);
                assert(v.rest.skip(v.rest.len() - settled(v).rest.len()) =~= w.rest.skip(n - settled(v).rest.len()));
            },
            Some(name) => {
                if name.len() == 0 || name == seq!['.'] {
                    let v = Walk { rest: w.rest.drop_first(), ..w };
                    settled_paths_begin_with_a_name(v);
                    assert(v.rest.skip(v.rest.len() - settled(v).rest.len()) =~= w.rest.skip(n - settled(v).rest.len()));
                } else if name == seq!['.', '.'] {
                    let v = Walk { rest: w.rest.drop_first(), done: parent(w.absolute, w.done), ..w };
                    settled_paths_begin_with_a_name(v);
                    assert(v.rest.skip(v.rest.len() - settled(v).rest.len()) =~= w.rest.skip(n - settled(v).rest.len()));
                } else {
                    assert(w.rest.skip(0) =~= w.rest);
                }
            },
        }
    } else {
        assert(w.rest.skip(0) =~= w.rest);
    }
}

/// What a path is in is the path without its last name; nothing is above the
/// root, and what lies above where one is is written as such.
pub proof fn parents_are_one_name_up(absolute: bool, names: Seq<Seq<char>>, name: Seq<char>)
    ensures
        name != seq!['.', '.'] ==> parent(absolute, names.push(name)) == names,
        parent(true, Seq::<Seq<char>>::empty()) == Seq::<Seq<char>>::empty(),
        parent(false, Seq::<Seq<char>>::empty()) == seq![seq!['.', '.']],
        !absolute && names.len() > 0 && names.last() == seq!['.', '.'] ==> parent(absolute, names) == names.push(
            seq!['.', '.'],
        ),
{
    assert(names.push(name).drop_last() =~= names);
    assert(parent(false, Seq::<Seq<char>>::empty()) =~= seq![seq!['.', '.']]);
}

/// A name that is no link stays: it is put behind those that are resolved, and
/// what follows it is left to resolve. Where a `..` follows, the two go away
/// together.
pub proof fn names_that_are_no_links_stay(w: Walk)
    requires
        w.rest.len() > 0,
        w.rest[0] matches Some(name) && is_plain_name(name),
    ensures
        w.rest.len() == 1 ==> passed(w).done == w.done.push(w.rest[0]->0) && passed(w).rest.len() == 0,
        w.rest.len() > 1 && (w.rest[1] matches Some(next) && is_plain_name(next)) ==> passed(w).done == w.done.push(
            w.rest[0]->0,
        ) && passed(w).rest == w.rest.drop_first(),
        w.rest.len() > 1 && w.rest[1] == Some(seq!['.', '.']) ==> passed(w) == settled(
            Walk { rest: w.rest.skip(2), ..w },
        ),
        passed(w).absolute == w.absolute,
{
    let name = w.rest[0]->0;
    let v = Walk { done: w.done.push(name), rest: w.rest.drop_first(), ..w };
    settled_paths_begin_with_a_name(v);
    if w.rest.len() > 1 {
        assert(v.rest[0] == w.rest[1]);
        assert(v.rest.drop_first() =~= w.rest.skip(2));
        parents_are_one_name_up(w.absolute, w.done, name);
        if w.rest[1] == Some(seq!['.', '.']) {
            let up = Walk { rest: v.rest.drop_first(), done: parent(v.absolute, v.done), ..v };
            assert(seq!['.', '.'].len() != seq!['.'].len());
            assert(settled(v) == settled(up));
            assert(up == Walk { rest: w.rest.skip(2), ..w });
        }
    }
}

/// A link that leads to a name beside it is replaced by that name, and one that
/// leads to a name at the root by the name there; then comes what followed the
/// link.
pub proof fn links_lead_from_where_they_are(w: Walk, name: Seq<char>)
    requires
        w.rest.len() > 0,
        is_plain_name(name),
    ensures
        ({
            let v = followed(w, name);
            &&& v.absolute == (w.absolute || name[0] == '/')
            &&& v.done == w.done
            &&& v.rest == seq![Some(name), None] + w.rest.drop_first()
            &&& v.open == w.open.push(here(w))
        }),
        ({
            let v = followed(w, seq!['/'] + name);
            &&& v.absolute
            &&& v.done.len() == 0
            &&& v.rest == seq![Some(name), None] + w.rest.drop_first()
            &&& v.open == w.open.push(here(w))
        }),
{
    assert(!name.contains('/'));
    if name[0] == '/' {
        assert(name.contains(name[0]));
    }
    crate::text::lemma_split_on_none(name, '/');
    assert(to_resolve(name).push(None) + w.rest.drop_first() =~= seq![Some(name), None] + w.rest.drop_first());
    let at_root = seq!['/'] + name;
    assert(at_root =~= Seq::<char>::empty().push('/') + name);
    crate::text::lemma_split_on_concat(Seq::<char>::empty(), name, '/');
    crate::text::lemma_split_on_none(Seq::<char>::empty(), '/');
    assert(split_on(at_root, '/') =~= seq![Seq::<char>::empty(), name]);
    let tail = seq![Some(name), None] + w.rest.drop_first();
    let v = Walk {
        absolute: true,
        done: Seq::empty(),
        rest: to_resolve(at_root).push(None) + w.rest.drop_first(),
        open: w.open.push(here(w)),
    };
    assert(v.rest[0] == Some(Seq::<char>::empty()));
    assert(v.rest.drop_first() =~= tail);
    assert(tail[0] == Some(name));
    let next = Walk { rest: v.rest.drop_first(), ..v };
    assert(settled(v) == settled(next));
    assert(settled(next) == next);
}

/// What lies at a name in a directory lies in that directory, what lies at a name
/// at the root in the root, and the root in nothing.
pub proof fn paths_lie_in_their_directory(directory: Seq<char>, name: Seq<char>)
    requires
        !name.contains('/'),
    ensures
        directory.len() > 0 ==> directory_of(directory.push('/') + name) == Some(directory),
        name.len() > 0 ==> directory_of(seq!['/'] + name) == Some(seq!['/']),
        directory_of(seq!['/']) is None,
        name.len() > 0 ==> directory_of(name) == Some(Seq::<char>::empty()),
{
    let p = directory.push('/') + name;
    assert forall|j: int| 0 <= j < name.len() implies name[j] != '/' by {
        assert(name.contains(name[j]));
    }
    assert forall|j: int| directory.len() < j < p.len() implies p[j] != '/' by {
        assert(p[j] == name[j - directory.len() - 1]);
    }
    crate::text::lemma_split_last_at(p, '/', directory.len() as int);
    assert(p.take(directory.len() as int) =~= directory);
    let q = seq!['/'] + name;
    assert forall|j: int| 0 < j < q.len() implies q[j] != '/' by {
        assert(q[j] == name[j - 1]);
    }
    crate::text::lemma_split_last_at(q, '/', 0);
    assert(q.take(0) =~= Seq::<char>::empty());
    assert(q.skip(1) =~= name);
    crate::text::lemma_split_last_at(seq!['/'], '/', 0);
    assert(seq!['/'].take(0) =~= Seq::<char>::empty());
    assert(seq!['/'].skip(1) =~= Seq::<char>::empty());
    crate::text::lemma_split_last_none(name, '/');
}

}
