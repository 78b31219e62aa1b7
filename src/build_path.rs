use vstd::prelude::*;
use vstd::string::*;

verus! {

/// A file-system path held as its components, so that joining, taking the
/// parent and removing a prefix are operations on a sequence.
#[derive(Clone, Debug)]
pub struct BuildPath {
    pub components: Vec<String>,
}

impl View for BuildPath {
    type V = Seq<Seq<char>>;

    open spec fn view(&self) -> Seq<Seq<char>> {
        self.components@.map_values(|c: String| c@)
    }
}

pub open spec fn dot_dot() -> Seq<char> {
    seq!['.', '.']
}

/// `p` with the component `c` appended as the operating system resolves it:
/// `..` goes up one level, `.` and the empty component stay where they are.
pub open spec fn push_normalized(p: Seq<Seq<char>>, c: Seq<char>) -> Seq<Seq<char>> {
    if c == dot_dot() {
        if p.len() > 0 { p.drop_last() } else { p }
    } else if c == seq!['.'] || c.len() == 0 {
        p
    } else {
        p.push(c)
    }
}

/// `p` with every component of `rel` appended in turn, resolved.
pub open spec fn join_normalized(p: Seq<Seq<char>>, rel: Seq<Seq<char>>) -> Seq<Seq<char>>
    decreases rel.len(),
{
    if rel.len() == 0 {
        p
    } else {
        push_normalized(join_normalized(p, rel.drop_last()), rel.last())
    }
}

/// Whether `base` is a leading part of `p`.
pub open spec fn has_prefix(p: Seq<Seq<char>>, base: Seq<Seq<char>>) -> bool {
    base.len() <= p.len() && p.subrange(0, base.len() as int) == base
}

proof fn lemma_views_push(a: Seq<String>, b: Seq<String>, x: String, y: String)
    requires
        a.map_values(|c: String| c@) == b.map_values(|c: String| c@),
        x@ == y@,
    ensures
        a.push(x).map_values(|c: String| c@) == b.push(y).map_values(|c: String| c@),
{
    assert(a.push(x).map_values(|c: String| c@) =~= a.map_values(|c: String| c@).push(x@));
    assert(b.push(y).map_values(|c: String| c@) =~= b.map_values(|c: String| c@).push(y@));
}

/// Whether two strings hold the same characters.
pub fn str_eq(a: &str, b: &str) -> (r: bool)
    ensures
        r == (a@ == b@),
{
    let n = a.unicode_len();
    if n != b.unicode_len() {
        return false;
    }
    let mut i: usize = 0;
    while i < n
        invariant
            n == a@.len(),
            n == b@.len(),
            0 <= i <= n,
            a@.subrange(0, i as int) == b@.subrange(0, i as int),
        decreases n - i,
    {
        if a.get_char(i) != b.get_char(i) {
            return false;
        }
        assert(a@.subrange(0, i + 1) =~= a@.subrange(0, i as int).push(a@[i as int]));
        assert(b@.subrange(0, i + 1) =~= b@.subrange(0, i as int).push(b@[i as int]));
        i = i + 1;
    }
    assert(a@ =~= a@.subrange(0, n as int));
    assert(b@ =~= b@.subrange(0, n as int));
    true
}

impl BuildPath {
    /// The empty relative path.
    pub fn new() -> (r: BuildPath)
        ensures
            r@ == Seq::<Seq<char>>::empty(),
    {
        let r = BuildPath { components: Vec::new() };
        assert(r@ =~= Seq::<Seq<char>>::empty());
        r
    }

    /// The path made of `parts`, one component each.
    pub fn from_components(parts: &Vec<String>) -> (r: BuildPath)
        ensures
            r@ == parts@.map_values(|c: String| c@),
    {
        let mut components: Vec<String> = Vec::new();
        let mut i: usize = 0;
        while i < parts.len()
            invariant
                0 <= i <= parts@.len(),
                components@.map_values(|c: String| c@) == parts@.subrange(0, i as int).map_values(|c: String| c@),
            decreases parts@.len() - i,
        {
            let c = parts[i].as_str().to_owned();
            let ghost before = components@;
            components.push(c);
            proof {
                assert(components@ == before.push(c));
                lemma_views_push(before, parts@.subrange(0, i as int), c, parts@[i as int]);
                assert(parts@.subrange(0, i + 1) =~= parts@.subrange(0, i as int).push(parts@[i as int]));
            }
            i = i + 1;
        }
        assert(parts@.subrange(0, parts@.len() as int) =~= parts@);
        BuildPath { components }
    }

    /// The number of components.
    pub fn len(&self) -> (r: usize)
        ensures
            r == self@.len(),
    {
        self.components.len()
    }

    /// This path with the component `c` appended as given.
    pub fn join(&self, c: &str) -> (r: BuildPath)
        ensures
            r@ == self@.push(c@),
    {
        let mut components = self.components.clone();
        assert(components@.map_values(|c: String| c@) =~= self@) by {
            assert forall|i: int| 0 <= i < components@.len() implies components@[i]@ == self.components@[i]@ by {
                assert(cloned::<String>(self.components@[i], components@[i]));
            }
        }
        components.push(c.to_owned());
        let r = BuildPath { components };
        assert(r@ =~= self@.push(c@));
        r
    }

    /// This path followed by every component of `rest`.
    pub fn concat(&self, rest: &BuildPath) -> (r: BuildPath)
        ensures
            r@ == self@ + rest@,
    {
        let mut r = self.clone_path();
        let mut i: usize = 0;
        while i < rest.components.len()
            invariant
                0 <= i <= rest@.len(),
                r@ == self@ + rest@.subrange(0, i as int),
            decreases rest@.len() - i,
        {
            r = r.join(rest.components[i].as_str());
            assert(self@ + rest@.subrange(0, i + 1) =~= (self@ + rest@.subrange(0, i as int)).push(rest@[i as int]));
            i = i + 1;
        }
        assert(rest@.subrange(0, rest@.len() as int) =~= rest@);
        r
    }

    /// This path with the component `c` appended and resolved.
    fn push_normalized(&mut self, c: &str)
        ensures
            final(self)@ == push_normalized(old(self)@, c@),
    {
        proof {
            reveal_strlit("..");
            reveal_strlit(".");
            assert(".."@ =~= dot_dot());
            assert("."@ =~= seq!['.']);
        }
        if str_eq(c, "..") {
            if self.components.len() > 0 {
                self.components.pop();
                assert(final(self)@ =~= old(self)@.drop_last());
            }
        } else if str_eq(c, ".") || c.unicode_len() == 0 {
        } else {
            self.components.push(c.to_owned());
            assert(final(self)@ =~= old(self)@.push(c@));
        }
    }

    /// This path with the relative path `rel` appended, `..` and `.`
    /// resolved against it, as an absolute path is formed.
    pub fn join_normalized(&self, rel: &BuildPath) -> (r: BuildPath)
        ensures
            r@ == join_normalized(self@, rel@),
    {
        let mut r = self.clone_path();
        let mut i: usize = 0;
        while i < rel.components.len()
            invariant
                0 <= i <= rel@.len(),
                r@ == join_normalized(self@, rel@.subrange(0, i as int)),
            decreases rel@.len() - i,
        {
            r.push_normalized(rel.components[i].as_str());
            assert(rel@.subrange(0, i + 1).drop_last() =~= rel@.subrange(0, i as int));
            i = i + 1;
        }
        assert(rel@.subrange(0, rel@.len() as int) =~= rel@);
        r
    }

    /// A copy of this path.
    pub fn clone_path(&self) -> (r: BuildPath)
        ensures
            r@ == self@,
    {
        let components = self.components.clone();
        let r = BuildPath { components };
        assert(r@ =~= self@) by {
            assert forall|i: int| 0 <= i < r@.len() implies r@[i] == self@[i] by {
                assert(cloned::<String>(self.components@[i], r.components@[i]));
            }
        }
        r
    }

    /// The path without its last component; `None` for the empty path.
    pub fn parent(&self) -> (r: Option<BuildPath>)
        ensures
            self@.len() == 0 ==> r is None,
            self@.len() > 0 ==> (r matches Some(p) && p@ == self@.drop_last()),
    {
        if self.components.len() == 0 {
            return None;
        }
        let mut p = self.clone_path();
        p.components.pop();
        assert(p@ =~= self@.drop_last());
        Some(p)
    }

    /// The last component; `None` for the empty path and for a path that
    /// ends in `..`, which names no file.
    pub fn file_name(&self) -> (r: Option<&str>)
        ensures
            (self@.len() == 0 || self@.last() == dot_dot()) ==> r is None,
            !(self@.len() == 0 || self@.last() == dot_dot()) ==> (r matches Some(n) && n@ == self@.last()),
    {
        proof {
            reveal_strlit("..");
            assert(".."@ =~= dot_dot());
        }
        let n = self.components.len();
        if n == 0 {
            return None;
        }
        let last = self.components[n - 1].as_str();
        if str_eq(last, "..") {
            None
        } else {
            Some(last)
        }
    }

    /// What follows `base` in this path, when `base` leads it.
    pub fn strip_prefix(&self, base: &BuildPath) -> (r: Option<BuildPath>)
        ensures
            has_prefix(self@, base@) ==> (r matches Some(p) && p@ == self@.subrange(base@.len() as int, self@.len() as int)),
            !has_prefix(self@, base@) ==> r is None,
    {
        let n = base.components.len();
        if n > self.components.len() {
            return None;
        }
        let mut i: usize = 0;
        while i < n
            invariant
                n == base@.len(),
                n <= self@.len(),
                0 <= i <= n,
                self@.subrange(0, i as int) == base@.subrange(0, i as int),
            decreases n - i,
        {
            if !str_eq(self.components[i].as_str(), base.components[i].as_str()) {
                assert(self@.subrange(0, n as int)[i as int] != base@[i as int]);
                return None;
            }
            assert(self@.subrange(0, i + 1) =~= self@.subrange(0, i as int).push(self@[i as int]));
            assert(base@.subrange(0, i + 1) =~= base@.subrange(0, i as int).push(base@[i as int]));
            i = i + 1;
        }
        assert(base@.subrange(0, n as int) =~= base@);
        let mut rest: Vec<String> = Vec::new();
        let mut j: usize = n;
        while j < self.components.len()
            invariant
                n <= j <= self@.len(),
                rest@.map_values(|c: String| c@) == self@.subrange(n as int, j as int),
            decreases self@.len() - j,
        {
            let c = self.components[j].as_str().to_owned();
            let ghost before = rest@;
            rest.push(c);
            proof {
                assert(rest@ == before.push(c));
                assert(before.push(c).map_values(|c: String| c@) =~= before.map_values(|c: String| c@).push(c@));
                assert(self@.subrange(n as int, j + 1) =~= self@.subrange(n as int, j as int).push(self@[j as int]));
            }
            j = j + 1;
        }
        Some(BuildPath { components: rest })
    }
}

} // verus!
