use vstd::prelude::*;

use crate::error::Error;

verus! {

// ---------------------------------------------------------------------------
// Characters and name normalization
// ---------------------------------------------------------------------------

/// Characters accepted in a package name: letters, digits and the three
/// separators `-`, `_` and `.`.
pub open spec fn is_name_char(c: char) -> bool {
    ('a' as u32 <= c as u32 && c as u32 <= 'z' as u32) || ('A' as u32 <= c as u32 && c as u32
        <= 'Z' as u32) || ('0' as u32 <= c as u32 && c as u32 <= '9' as u32) || c == '-' || c == '_'
        || c == '.'
}

/// Characters accepted in a version: name characters plus `*`, `+` and `!`.
pub open spec fn is_version_char(c: char) -> bool {
    is_name_char(c) || c == '*' || c == '+' || c == '!'
}

pub open spec fn lower_char(c: char) -> char {
    match c {
        'A' => 'a',
        'B' => 'b',
        'C' => 'c',
        'D' => 'd',
        'E' => 'e',
        'F' => 'f',
        'G' => 'g',
        'H' => 'h',
        'I' => 'i',
        'J' => 'j',
        'K' => 'k',
        'L' => 'l',
        'M' => 'm',
        'N' => 'n',
        'O' => 'o',
        'P' => 'p',
        'Q' => 'q',
        'R' => 'r',
        'S' => 's',
        'T' => 't',
        'U' => 'u',
        'V' => 'v',
        'W' => 'w',
        'X' => 'x',
        'Y' => 'y',
        'Z' => 'z',
        _ => c,
    }
}

/// One character of a normalized name: lower case, with the separators
/// `_` and `.` mapped to `-`.
pub open spec fn norm_char(c: char) -> char {
    if c == '_' || c == '.' {
        '-'
    } else {
        lower_char(c)
    }
}

/// The normalized form of a package name. Two requirements denote the same
/// dependency exactly when their normalized names are equal.
pub open spec fn normalize(s: Seq<char>) -> Seq<char> {
    s.map_values(|c: char| norm_char(c))
}

pub fn lower_char_of(c: char) -> (r: char)
    ensures
        r == lower_char(c),
{
    match c {
        'A' => 'a',
        'B' => 'b',
        'C' => 'c',
        'D' => 'd',
        'E' => 'e',
        'F' => 'f',
        'G' => 'g',
        'H' => 'h',
        'I' => 'i',
        'J' => 'j',
        'K' => 'k',
        'L' => 'l',
        'M' => 'm',
        'N' => 'n',
        'O' => 'o',
        'P' => 'p',
        'Q' => 'q',
        'R' => 'r',
        'S' => 's',
        'T' => 't',
        'U' => 'u',
        'V' => 'v',
        'W' => 'w',
        'X' => 'x',
        'Y' => 'y',
        'Z' => 'z',
        _ => c,
    }
}

fn norm_char_exec(c: char) -> (r: char)
    ensures
        r == norm_char(c),
{
    if c == '_' || c == '.' {
        '-'
    } else {
        lower_char_of(c)
    }
}

pub fn name_char(c: char) -> (r: bool)
    ensures
        r == is_name_char(c),
{
    let u: u32 = c as u32;
    (97 <= u && u <= 122) || (65 <= u && u <= 90) || (48 <= u && u <= 57) || c == '-' || c == '_'
        || c == '.'
}

pub fn version_char(c: char) -> (r: bool)
    ensures
        r == is_version_char(c),
{
    name_char(c) || c == '*' || c == '+' || c == '!'
}

/// Whether two texts are the same name under normalization.
pub fn names_match(a: &str, b: &str) -> (r: bool)
    ensures
        r == (normalize(a@) == normalize(b@)),
{
    let an: usize = a.unicode_len();
    let bn: usize = b.unicode_len();
    if an != bn {
        proof {
            assert(normalize(a@).len() != normalize(b@).len());
        }
        return false;
    }
    let mut i: usize = 0;
    while i < an
        invariant
            0 <= i <= an,
            an == a@.len(),
            an == b@.len(),
            forall|j: int| 0 <= j < i ==> norm_char(a@[j]) == norm_char(b@[j]),
        decreases an - i,
    {
        if norm_char_exec(a.get_char(i)) != norm_char_exec(b.get_char(i)) {
            proof {
                assert(normalize(a@)[i as int] != normalize(b@)[i as int]);
            }
            return false;
        }
        i += 1;
    }
    proof {
        assert(normalize(a@) =~= normalize(b@));
    }
    true
}

/// Relies on String::push: appends exactly the one character given.
#[verifier::external_body]
pub fn push_char(s: &mut String, c: char)
    ensures
        final(s)@ == old(s)@.push(c),
{
    s.push(c);
}

/// Whether two texts are equal character for character.
pub fn texts_equal(a: &str, b: &str) -> (r: bool)
    ensures
        r == (a@ == b@),
{
    let sa = String::from_str(a);
    let sb = String::from_str(b);
    sa == sb
}

// ---------------------------------------------------------------------------
// The requirement model
// ---------------------------------------------------------------------------

/// The comparison operator of a version constraint.
#[derive(Clone, Copy, Debug, PartialEq, Eq, Structural)]
pub enum CompareOp {
    Equal,
    NotEqual,
    LessEq,
    GreaterEq,
    Less,
    Greater,
    Compatible,
}

/// The constraint part of a requirement: none, an operator with a version, or
/// a direct source locator.
#[derive(Debug)]
pub enum Specifier {
    Any,
    Version { op: CompareOp, version: String },
    Url { url: String },
}

/// A parsed dependency requirement: a name, an optional bracketed extras
/// list, and an optional constraint.
#[derive(Debug)]
pub struct Dependency {
    pub name: String,
    pub extras: Vec<String>,
    pub specifier: Specifier,
}

#[verifier::ext_equal]
pub enum SpecifierView {
    Any,
    Version { op: CompareOp, version: Seq<char> },
    Url { url: Seq<char> },
}

#[verifier::ext_equal]
pub struct DepView {
    pub name: Seq<char>,
    pub extras: Seq<Seq<char>>,
    pub specifier: SpecifierView,
}

impl View for Specifier {
    type V = SpecifierView;

    open spec fn view(&self) -> SpecifierView {
        match self {
            Specifier::Any => SpecifierView::Any,
            Specifier::Version { op, version } => SpecifierView::Version {
                op: *op,
                version: version@,
            },
            Specifier::Url { url } => SpecifierView::Url { url: url@ },
        }
    }
}

impl View for Dependency {
    type V = DepView;

    open spec fn view(&self) -> DepView {
        DepView { name: self.name@, extras: self.extras.deep_view(), specifier: self.specifier@ }
    }
}

/// Identity match: the two requirements name the same dependency, whatever
/// their constraints.
pub open spec fn same_identity(a: DepView, b: DepView) -> bool {
    normalize(a.name) == normalize(b.name)
}

/// Exact match: same dependency, same extras and same constraint.
pub open spec fn exact_match(a: DepView, b: DepView) -> bool {
    same_identity(a, b) && a.extras == b.extras && a.specifier == b.specifier
}

// ---------------------------------------------------------------------------
// Parsing
// ---------------------------------------------------------------------------

/// First index at or after `i` that does not hold a name character.
pub open spec fn name_end(s: Seq<char>, i: int) -> int
    decreases s.len() - i
        when 0 <= i <= s.len()
{
    if i < s.len() && is_name_char(s[i]) {
        name_end(s, i + 1)
    } else {
        i
    }
}

/// First index at or after `i` that does not hold a version character.
pub open spec fn version_end(s: Seq<char>, i: int) -> int
    decreases s.len() - i
        when 0 <= i <= s.len()
{
    if i < s.len() && is_version_char(s[i]) {
        version_end(s, i + 1)
    } else {
        i
    }
}

/// The items of a bracketed extras list, read from index `i` (just past the
/// opening bracket) to the closing bracket. `cur` is the item read so far and
/// `acc` the finished items. Yields the items and the index just past the
/// closing bracket.
pub open spec fn extras_items(
    s: Seq<char>,
    i: int,
    cur: Seq<char>,
    acc: Seq<Seq<char>>,
) -> Result<(Seq<Seq<char>>, int), Error>
    decreases s.len() - i
        when 0 <= i <= s.len()
{
    if i == s.len() {
        Err(Error::MalformedSpecifier)
    } else if s[i] == ']' {
        if cur.len() == 0 {
            Err(Error::MalformedSpecifier)
        } else {
            Ok((acc.push(cur), i + 1))
        }
    } else if s[i] == ',' {
        if cur.len() == 0 {
            Err(Error::MalformedSpecifier)
        } else {
            extras_items(s, i + 1, Seq::empty(), acc.push(cur))
        }
    } else if is_name_char(s[i]) {
        extras_items(s, i + 1, cur.push(s[i]), acc)
    } else {
        Err(Error::MalformedSpecifier)
    }
}

/// The comparison operator starting at index `i`, with the index just past
/// it, if one stands there.
pub open spec fn op_at(s: Seq<char>, i: int) -> Option<(CompareOp, int)> {
    if i + 1 < s.len() && s[i] == '=' && s[i + 1] == '=' {
        Some((CompareOp::Equal, i + 2))
    } else if i + 1 < s.len() && s[i] == '!' && s[i + 1] == '=' {
        Some((CompareOp::NotEqual, i + 2))
    } else if i + 1 < s.len() && s[i] == '<' && s[i + 1] == '=' {
        Some((CompareOp::LessEq, i + 2))
    } else if i + 1 < s.len() && s[i] == '>' && s[i + 1] == '=' {
        Some((CompareOp::GreaterEq, i + 2))
    } else if i + 1 < s.len() && s[i] == '~' && s[i + 1] == '=' {
        Some((CompareOp::Compatible, i + 2))
    } else if i < s.len() && s[i] == '<' {
        Some((CompareOp::Less, i + 1))
    } else if i < s.len() && s[i] == '>' {
        Some((CompareOp::Greater, i + 1))
    } else {
        None
    }
}

/// The constraint written from index `i` to the end: nothing, `@` and a
/// source locator, or a comparison operator and a version.
pub open spec fn specifier_from(s: Seq<char>, i: int) -> Result<SpecifierView, Error> {
    if i == s.len() {
        Ok(SpecifierView::Any)
    } else if s[i] == '@' {
        if i + 1 < s.len() {
            Ok(SpecifierView::Url { url: s.subrange(i + 1, s.len() as int) })
        } else {
            Err(Error::MalformedSpecifier)
        }
    } else {
        match op_at(s, i) {
            Some((op, v)) => if v < s.len() && version_end(s, v) == s.len() {
                Ok(SpecifierView::Version { op, version: s.subrange(v, s.len() as int) })
            } else {
                Err(Error::MalformedSpecifier)
            },
            None => Err(Error::MalformedSpecifier),
        }
    }
}

/// What parsing a requirement text yields: a name, then an optional
/// bracketed extras list, then an optional constraint, with no spaces
/// anywhere.
pub open spec fn parse_dependency(s: Seq<char>) -> Result<DepView, Error> {
    let ne = name_end(s, 0);
    if ne == 0 {
        Err(Error::EmptyDependencyName)
    } else {
        let name = s.subrange(0, ne);
        if ne < s.len() && s[ne] == '[' {
            match extras_items(s, ne + 1, Seq::empty(), Seq::empty()) {
                Ok((items, k)) => match specifier_from(s, k) {
                    Ok(sp) => Ok(DepView { name, extras: items, specifier: sp }),
                    Err(e) => Err(e),
                },
                Err(e) => Err(e),
            }
        } else {
            match specifier_from(s, ne) {
                Ok(sp) => Ok(DepView { name, extras: Seq::empty(), specifier: sp }),
                Err(e) => Err(e),
            }
        }
    }
}

/// The view of a parse result.
pub open spec fn parse_result_view(r: Result<Dependency, Error>) -> Result<DepView, Error> {
    match r {
        Ok(d) => Ok(d@),
        Err(e) => Err(e),
    }
}

impl Dependency {
    /// Reads a requirement from its text: a name, an optional bracketed
    /// extras list, and an optional version constraint or `@` source
    /// locator, written without spaces.
    #[verifier::loop_isolation(false)]
    pub fn parse(s: &str) -> (r: Result<Dependency, Error>)
        ensures
            parse_result_view(r) == parse_dependency(s@),
    {
        let n: usize = s.unicode_len();
        let mut i: usize = 0;
        while i < n && name_char(s.get_char(i))
            invariant
                0 <= i <= n,
                n == s@.len(),
                name_end(s@, 0) == name_end(s@, i as int),
            decreases n - i,
        {
            i += 1;
        }
        proof {
            assert(name_end(s@, i as int) == i);
        }
        if i == 0 {
            return Err(Error::EmptyDependencyName);
        }
        let name = String::from_str(s.substring_char(0, i));
        let ghost name_to = i as int;

        let mut extras: Vec<String> = Vec::new();
        let mut k: usize = i;
        if i < n && s.get_char(i) == '[' {
            let mut j: usize = i + 1;
            let mut start: usize = j;
            proof {
                assert(s@.subrange(start as int, j as int) =~= Seq::<char>::empty());
                assert(extras.deep_view() =~= Seq::<Seq<char>>::empty());
            }
            let mut done = false;
            while !done
                invariant
                    i + 1 <= start <= j <= n,
                    extras_items(s@, (i + 1) as int, Seq::empty(), Seq::empty()) == extras_items(
                        s@,
                        j as int,
                        s@.subrange(start as int, j as int),
                        extras.deep_view(),
                    ),
                    done ==> j < n && s@[j as int] == ']' && start < j,
                decreases n - j + (if done {
                    0int
                } else {
                    1int
                }),
            {
                if j == n {
                    return Err(Error::MalformedSpecifier);
                }
                let c = s.get_char(j);
                if c == ']' {
                    if start == j {
                        return Err(Error::MalformedSpecifier);
                    }
                    done = true;
                } else if c == ',' {
                    if start == j {
                        return Err(Error::MalformedSpecifier);
                    }
                    let ghost prev = extras.deep_view();
                    let ghost item = s@.subrange(start as int, j as int);
                    extras.push(String::from_str(s.substring_char(start, j)));
                    proof {
                        assert(extras.deep_view() =~= prev.push(item));
                    }
                    j += 1;
                    start = j;
                    proof {
                        assert(s@.subrange(start as int, j as int) =~= Seq::<char>::empty());
                    }
                } else if name_char(c) {
                    j += 1;
                    proof {
                        assert(s@.subrange(start as int, j as int) =~= s@.subrange(
                            start as int,
                            j as int - 1,
                        ).push(s@[j as int - 1]));
                    }
                } else {
                    return Err(Error::MalformedSpecifier);
                }
            }
            let ghost prev = extras.deep_view();
            extras.push(String::from_str(s.substring_char(start, j)));
            proof {
                assert(extras.deep_view() =~= prev.push(s@.subrange(start as int, j as int)));
                assert(extras_items(s@, j as int, s@.subrange(start as int, j as int), prev)
                    == Ok::<(Seq<Seq<char>>, int), Error>((extras.deep_view(), j + 1 as int)));
            }
            k = j + 1;
        } else {
            proof {
                assert(extras.deep_view() =~= Seq::<Seq<char>>::empty());
            }
        }
        let ghost items = extras.deep_view();

        let specifier: Specifier;
        if k == n {
            specifier = Specifier::Any;
        } else {
            let c = s.get_char(k);
            if c == '@' {
                if k + 1 < n {
                    specifier = Specifier::Url {
                        url: String::from_str(s.substring_char(k + 1, n)),
                    };
                } else {
                    return Err(Error::MalformedSpecifier);
                }
            } else {
                let op: CompareOp;
                let v: usize;
                if k + 1 < n && c == '=' && s.get_char(k + 1) == '=' {
                    op = CompareOp::Equal;
                    v = k + 2;
                } else if k + 1 < n && c == '!' && s.get_char(k + 1) == '=' {
                    op = CompareOp::NotEqual;
                    v = k + 2;
                } else if k + 1 < n && c == '<' && s.get_char(k + 1) == '=' {
                    op = CompareOp::LessEq;
                    v = k + 2;
                } else if k + 1 < n && c == '>' && s.get_char(k + 1) == '=' {
                    op = CompareOp::GreaterEq;
                    v = k + 2;
                } else if k + 1 < n && c == '~' && s.get_char(k + 1) == '=' {
                    op = CompareOp::Compatible;
                    v = k + 2;
                } else if c == '<' {
                    op = CompareOp::Less;
                    v = k + 1;
                } else if c == '>' {
                    op = CompareOp::Greater;
                    v = k + 1;
                } else {
                    return Err(Error::MalformedSpecifier);
                }
                proof {
                    assert(op_at(s@, k as int) == Some((op, v as int)));
                }
                if v == n {
                    return Err(Error::MalformedSpecifier);
                }
                let mut w: usize = v;
                while w < n && version_char(s.get_char(w))
                    invariant
                        v <= w <= n,
                        n == s@.len(),
                        version_end(s@, v as int) == version_end(s@, w as int),
                    decreases n - w,
                {
                    w += 1;
                }
                proof {
                    assert(version_end(s@, w as int) == w);
                }
                if w != n {
                    return Err(Error::MalformedSpecifier);
                }
                specifier = Specifier::Version {
                    op,
                    version: String::from_str(s.substring_char(v, n)),
                };
            }
        }
        let d = Dependency { name, extras, specifier };
        proof {
            assert(parse_dependency(s@) == Ok::<DepView, Error>(d@));
        }
        Ok(d)
    }
}

// ---------------------------------------------------------------------------
// Comparisons, duplication and rendering
// ---------------------------------------------------------------------------

/// The views of a sequence of requirements.
pub open spec fn dep_views(s: Seq<Dependency>) -> Seq<DepView> {
    s.map_values(|d: Dependency| d@)
}

fn extras_equal(a: &Vec<String>, b: &Vec<String>) -> (r: bool)
    ensures
        r == (a.deep_view() == b.deep_view()),
{
    if a.len() != b.len() {
        proof {
            assert(a.deep_view().len() != b.deep_view().len());
        }
        return false;
    }
    let mut i: usize = 0;
    while i < a.len()
        invariant
            0 <= i <= a.len(),
            a.len() == b.len(),
            forall|j: int| 0 <= j < i ==> a.deep_view()[j] == b.deep_view()[j],
        decreases a.len() - i,
    {
        if !(a[i] == b[i]) {
            proof {
                assert(a.deep_view()[i as int] != b.deep_view()[i as int]);
            }
            return false;
        }
        i += 1;
    }
    proof {
        assert(a.deep_view() =~= b.deep_view());
    }
    true
}

impl Specifier {
    fn duplicate(&self) -> (r: Specifier)
        ensures
            r@ == self@,
    {
        match self {
            Specifier::Any => Specifier::Any,
            Specifier::Version { op, version } => Specifier::Version {
                op: *op,
                version: version.clone(),
            },
            Specifier::Url { url } => Specifier::Url { url: url.clone() },
        }
    }

    fn matches(&self, other: &Specifier) -> (r: bool)
        ensures
            r == (self@ == other@),
    {
        match (self, other) {
            (Specifier::Any, Specifier::Any) => true,
            (
                Specifier::Version { op: o1, version: v1 },
                Specifier::Version { op: o2, version: v2 },
            ) => {
                let r = *o1 == *o2 && *v1 == *v2;
                proof {
                    if r {
                        assert(self@ =~= other@);
                    }
                }
                r
            },
            (Specifier::Url { url: u1 }, Specifier::Url { url: u2 }) => {
                let r = *u1 == *u2;
                proof {
                    if r {
                        assert(self@ =~= other@);
                    }
                }
                r
            },
            _ => false,
        }
    }
}

impl Dependency {
    /// Identity match: both requirements name the same dependency.
    pub fn same_dependency(&self, other: &Dependency) -> (r: bool)
        ensures
            r == same_identity(self@, other@),
    {
        names_match(self.name.as_str(), other.name.as_str())
    }

    /// Exact match: same dependency, same extras, same constraint.
    pub fn matches_exactly(&self, other: &Dependency) -> (r: bool)
        ensures
            r == exact_match(self@, other@),
    {
        self.same_dependency(other) && extras_equal(&self.extras, &other.extras)
            && self.specifier.matches(&other.specifier)
    }

    /// Whether the two requirements are written identically: same name text,
    /// same extras, same constraint.
    pub fn identical(&self, other: &Dependency) -> (r: bool)
        ensures
            r == (self@ == other@),
    {
        let r = self.name == other.name && extras_equal(&self.extras, &other.extras)
            && self.specifier.matches(&other.specifier);
        proof {
            if r {
                assert(self@ =~= other@);
            }
        }
        r
    }

    /// Whether the requirement carries no version constraint or locator.
    pub fn is_unconstrained(&self) -> (r: bool)
        ensures
            r == (self@.specifier is Any),
    {
        match self.specifier {
            Specifier::Any => true,
            _ => false,
        }
    }

    /// An identical copy.
    #[verifier::loop_isolation(false)]
    pub fn duplicate(&self) -> (r: Dependency)
        ensures
            r@ == self@,
    {
        let mut extras: Vec<String> = Vec::new();
        let mut i: usize = 0;
        while i < self.extras.len()
            invariant
                0 <= i <= self.extras.len(),
                extras.deep_view() == self.extras.deep_view().take(i as int),
            decreases self.extras.len() - i,
        {
            let ghost prev = extras.deep_view();
            extras.push(self.extras[i].clone());
            proof {
                assert(extras.deep_view() =~= prev.push(self.extras.deep_view()[i as int]));
                assert(self.extras.deep_view().take(i + 1 as int) =~= self.extras.deep_view().take(
                    i as int,
                ).push(self.extras.deep_view()[i as int]));
            }
            i += 1;
        }
        proof {
            assert(extras.deep_view() =~= self.extras.deep_view());
        }
        let d = Dependency {
            name: self.name.clone(),
            extras,
            specifier: self.specifier.duplicate(),
        };
        proof {
            assert(d@ =~= self@);
        }
        d
    }
}

/// The written form of a comparison operator.
pub open spec fn op_text(op: CompareOp) -> Seq<char> {
    match op {
        CompareOp::Equal => seq!['=', '='],
        CompareOp::NotEqual => seq!['!', '='],
        CompareOp::LessEq => seq!['<', '='],
        CompareOp::GreaterEq => seq!['>', '='],
        CompareOp::Less => seq!['<'],
        CompareOp::Greater => seq!['>'],
        CompareOp::Compatible => seq!['~', '='],
    }
}

/// The items of an extras list joined with commas.
pub open spec fn join_extras(items: Seq<Seq<char>>) -> Seq<char>
    decreases items.len(),
{
    if items.len() == 0 {
        Seq::empty()
    } else if items.len() == 1 {
        items[0]
    } else {
        join_extras(items.drop_last()) + seq![','] + items.last()
    }
}

/// The written form of an extras list: nothing, or the items bracketed.
pub open spec fn render_extras(items: Seq<Seq<char>>) -> Seq<char> {
    if items.len() == 0 {
        Seq::empty()
    } else {
        seq!['['] + join_extras(items) + seq![']']
    }
}

/// The written form of a constraint.
pub open spec fn render_specifier(sp: SpecifierView) -> Seq<char> {
    match sp {
        SpecifierView::Any => Seq::empty(),
        SpecifierView::Version { op, version } => op_text(op) + version,
        SpecifierView::Url { url } => seq!['@'] + url,
    }
}

/// The written form of a requirement, as handed to the package installer.
pub open spec fn render_dep(d: DepView) -> Seq<char> {
    d.name + render_extras(d.extras) + render_specifier(d.specifier)
}

fn op_str(op: &CompareOp) -> (r: &'static str)
    ensures
        r@ == op_text(*op),
{
    match op {
        CompareOp::Equal => {
            proof {
                reveal_strlit("==");
                assert("=="@ =~= op_text(CompareOp::Equal));
            }
            "=="
        },
        CompareOp::NotEqual => {
            proof {
                reveal_strlit("!=");
                assert("!="@ =~= op_text(CompareOp::NotEqual));
            }
            "!="
        },
        CompareOp::LessEq => {
            proof {
                reveal_strlit("<=");
                assert("<="@ =~= op_text(CompareOp::LessEq));
            }
            "<="
        },
        CompareOp::GreaterEq => {
            proof {
                reveal_strlit(">=");
                assert(">="@ =~= op_text(CompareOp::GreaterEq));
            }
            ">="
        },
        CompareOp::Less => {
            proof {
                reveal_strlit("<");
                assert("<"@ =~= op_text(CompareOp::Less));
            }
            "<"
        },
        CompareOp::Greater => {
            proof {
                reveal_strlit(">");
                assert(">"@ =~= op_text(CompareOp::Greater));
            }
            ">"
        },
        CompareOp::Compatible => {
            proof {
                reveal_strlit("~=");
                assert("~="@ =~= op_text(CompareOp::Compatible));
            }
            "~="
        },
    }
}

impl Dependency {
    /// The requirement written back as text, as the installer expects it.
    #[verifier::loop_isolation(false)]
    pub fn requirement_text(&self) -> (r: String)
        ensures
            r@ == render_dep(self@),
    {
        let mut out = self.name.clone();
        if self.extras.len() > 0 {
            proof {
                reveal_strlit("[");
                reveal_strlit("]");
                reveal_strlit(",");
                assert("["@ =~= seq!['[']);
                assert("]"@ =~= seq![']']);
                assert(","@ =~= seq![',']);
            }
            out.append("[");
            let mut i: usize = 0;
            while i < self.extras.len()
                invariant
                    0 < i <= self.extras.len() || i == 0,
                    i > 0 ==> out@ == self@.name + seq!['['] + join_extras(
                        self@.extras.take(i as int),
                    ),
                    i == 0 ==> out@ == self@.name + seq!['['],
                decreases self.extras.len() - i,
            {
                if i > 0 {
                    out.append(",");
                }
                out.append(self.extras[i].as_str());
                proof {
                    assert(self@.extras.take(i + 1 as int).drop_last() =~= self@.extras.take(
                        i as int,
                    ));
                    assert(self@.extras.take(i + 1 as int).last() == self@.extras[i as int]);
                    if i > 0 {
                        assert(join_extras(self@.extras.take(i + 1 as int)) == join_extras(
                            self@.extras.take(i as int),
                        ) + seq![','] + self@.extras[i as int]);
                    } else {
                        assert(join_extras(self@.extras.take(1int)) == self@.extras.take(1int)[0]);
                    }
                    assert(out@ =~= self@.name + seq!['['] + join_extras(
                        self@.extras.take(i + 1 as int),
                    ));
                }
                i += 1;
            }
            proof {
                assert(self@.extras.take(self.extras.len() as int) =~= self@.extras);
            }
            out.append("]");
        }
        match &self.specifier {
            Specifier::Any => {
            },
            Specifier::Version { op, version } => {
                out.append(op_str(op));
                out.append(version.as_str());
            },
            Specifier::Url { url } => {
                proof {
                    reveal_strlit("@");
                    assert("@"@ =~= seq!['@']);
                }
                out.append("@");
                out.append(url.as_str());
            },
        }
        proof {
            assert(out@ =~= render_dep(self@));
        }
        out
    }
}

// ---------------------------------------------------------------------------
// Parsing a batch
// ---------------------------------------------------------------------------

/// What parsing a batch of requirement texts yields: every requirement, or
/// the first error. A single bad text rejects the whole batch.
pub open spec fn parse_list(texts: Seq<Seq<char>>) -> Result<Seq<DepView>, Error>
    decreases texts.len(),
{
    if texts.len() == 0 {
        Ok(Seq::empty())
    } else {
        match parse_list(texts.drop_last()) {
            Ok(ds) => match parse_dependency(texts.last()) {
                Ok(d) => Ok(ds.push(d)),
                Err(e) => Err(e),
            },
            Err(e) => Err(e),
        }
    }
}

proof fn lemma_parse_list_err(texts: Seq<Seq<char>>, m: int)
    requires
        0 <= m <= texts.len(),
        parse_list(texts.take(m)) is Err,
    ensures
        parse_list(texts) == parse_list(texts.take(m)),
    decreases texts.len() - m,
{
    if m < texts.len() {
        assert(texts.take(m + 1).drop_last() =~= texts.take(m));
        lemma_parse_list_err(texts, m + 1);
    } else {
        assert(texts.take(m) =~= texts);
    }
}

/// Reads a whole batch of requirement texts, stopping at the first error.
#[verifier::loop_isolation(false)]
pub fn parse_requirements(texts: &Vec<String>) -> (r: Result<Vec<Dependency>, Error>)
    ensures
        match r {
            Ok(ds) => parse_list(texts.deep_view()) == Ok::<Seq<DepView>, Error>(dep_views(ds@)),
            Err(e) => parse_list(texts.deep_view()) == Err::<Seq<DepView>, Error>(e),
        },
{
    let mut out: Vec<Dependency> = Vec::new();
    let mut i: usize = 0;
    proof {
        assert(texts.deep_view().take(0) =~= Seq::<Seq<char>>::empty());
        assert(dep_views(out@) =~= Seq::<DepView>::empty());
    }
    while i < texts.len()
        invariant
            0 <= i <= texts.len(),
            parse_list(texts.deep_view().take(i as int)) == Ok::<Seq<DepView>, Error>(
                dep_views(out@),
            ),
        decreases texts.len() - i,
    {
        match Dependency::parse(texts[i].as_str()) {
            Ok(d) => {
                let ghost prev = dep_views(out@);
                out.push(d);
                proof {
                    assert(dep_views(out@) =~= prev.push(d@));
                    assert(texts.deep_view().take(i + 1 as int).drop_last() =~= texts.deep_view()
                        .take(i as int));
                }
            },
            Err(e) => {
                proof {
                    assert(texts.deep_view().take(i + 1 as int).drop_last() =~= texts.deep_view()
                        .take(i as int));
                    assert(parse_list(texts.deep_view().take(i + 1 as int)) == Err::<
                        Seq<DepView>,
                        Error,
                    >(e));
                    lemma_parse_list_err(texts.deep_view(), i + 1 as int);
                }
                return Err(e);
            },
        }
        i += 1;
    }
    proof {
        assert(texts.deep_view().take(texts.len() as int) =~= texts.deep_view());
    }
    Ok(out)
}

} // verus!
