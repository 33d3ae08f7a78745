//! Small configuration values: the proxy scheme flag, and settings that hold
//! either one value or one value per named profile.
use crate::text::same_text;
use vstd::prelude::*;

verus! {

/// The lower-case form of a text, as `str::to_lowercase` gives it.
pub uninterp spec fn lower_of(s: Seq<char>) -> Seq<char>;

/// Relies on `str::to_lowercase`: the result depends on the characters alone.
#[verifier::external_body]
fn lowercase(s: &str) -> (r: String)
    ensures
        r@ == lower_of(s@),
{
    s.to_lowercase()
}

/// A flag that is HTTP or HTTPS.
#[derive(Debug, Clone, Copy, PartialEq, Eq, Structural)]
pub enum ProxyScheme {
    Http,
    Https,
}

/// A proxy scheme flag that is neither HTTP nor HTTPS.
#[derive(Debug)]
pub struct InvalidScheme {
    pub input: String,
}

impl InvalidScheme {
    /// The error message.
    pub fn message(&self) -> (r: String)
        ensures
            r@ == "Failed to parse flag: "@ + self.input@ + ". Supported values are: HTTP, HTTPS"@,
    {
        let mut r = "Failed to parse flag: ".to_owned();
        r.append(self.input.as_str());
        r.append(". Supported values are: HTTP, HTTPS");
        r
    }
}

impl ProxyScheme {
    /// Reads the flag, in any letter case.
    pub fn parse(input: &str) -> (r: Result<ProxyScheme, InvalidScheme>)
        ensures
            lower_of(input@) == "http"@ ==> r == Ok::<ProxyScheme, InvalidScheme>(ProxyScheme::Http),
            lower_of(input@) == "https"@ ==> r == Ok::<ProxyScheme, InvalidScheme>(
                ProxyScheme::Https,
            ),
            lower_of(input@) != "http"@ && lower_of(input@) != "https"@ ==> r is Err
                && r->Err_0.input@ == input@,
    {
        proof {
            reveal_strlit("http");
            reveal_strlit("https");
            assert("http"@.len() != "https"@.len());
        }
        let lower = lowercase(input);
        if same_text(lower.as_str(), "http") {
            Ok(ProxyScheme::Http)
        } else if same_text(lower.as_str(), "https") {
            Ok(ProxyScheme::Https)
        } else {
            Err(InvalidScheme { input: input.to_owned() })
        }
    }

    /// The flag as text: `http` or `https`.
    pub fn as_str(&self) -> (r: &'static str)
        ensures
            *self == ProxyScheme::Http ==> r@ == "http"@,
            *self == ProxyScheme::Https ==> r@ == "https"@,
    {
        match self {
            ProxyScheme::Http => "http",
            ProxyScheme::Https => "https",
        }
    }
}

/// A setting with one value, or one value per profile name.
#[derive(Debug)]
pub enum Multi<T> {
    Single(T),
    Multi(Vec<(String, T)>),
}

/// Why a setting could not be read under the given profile name.
#[derive(Debug, Clone, Copy, PartialEq, Eq, Structural)]
pub enum MultiError {
    /// The setting has names, but none was given.
    SingleNotMulti,
    /// A name was given, but the setting has no names.
    MultiNotSingle,
    /// No value under the given name.
    MultiKeyNotFound,
}

impl MultiError {
    /// The error message.
    pub fn message(&self) -> (r: &'static str)
        ensures
            *self == MultiError::SingleNotMulti ==> r@
                == "You are trying to access a named field, but the fields are not named"@,
            *self != MultiError::SingleNotMulti ==> r@ == "You need a name for this field"@,
    {
        match self {
            MultiError::SingleNotMulti => "You are trying to access a named field, but the fields are not named",
            _ => "You need a name for this field",
        }
    }
}

/// Entry `i` is the first one named `k`.
pub open spec fn is_first_named<T>(s: Seq<(String, T)>, k: Seq<char>, i: int) -> bool {
    0 <= i < s.len() && s[i].0@ == k && forall|j: int| 0 <= j < i ==> (#[trigger] s[j]).0@ != k
}

pub open spec fn has_name<T>(s: Seq<(String, T)>, k: Seq<char>) -> bool {
    exists|i: int| 0 <= i < s.len() && (#[trigger] s[i]).0@ == k
}

fn find_named<T>(s: &Vec<(String, T)>, k: &str) -> (r: Option<usize>)
    ensures
        match r {
            Some(i) => is_first_named(s@, k@, i as int),
            None => !has_name(s@, k@),
        },
{
    let mut i: usize = 0;
    while i < s.len()
        invariant
            i <= s@.len(),
            forall|j: int| 0 <= j < i ==> (#[trigger] s@[j]).0@ != k@,
        decreases s@.len() - i,
    {
        if same_text(s[i].0.as_str(), k) {
            return Some(i);
        }
        i = i + 1;
    }
    None
}

pub open spec fn opt_str(k: Option<&str>) -> Option<Seq<char>> {
    match k {
        Some(s) => Some(s@),
        None => None,
    }
}

impl<T> Multi<T> {
    /// The value: without a name for a single setting, under the name
    /// otherwise.
    pub fn get(&self, key: Option<&str>) -> (r: Result<&T, MultiError>)
        ensures
            *self is Single && key is None ==> r is Ok && *r->Ok_0 == self->Single_0,
            *self is Multi && key is Some ==> match r {
                Ok(v) => exists|i: int|
                    is_first_named(self->Multi_0@, key->Some_0@, i) && *v == self->Multi_0@[i].1,
                Err(e) => e == MultiError::MultiKeyNotFound && !has_name(
                    self->Multi_0@,
                    key->Some_0@,
                ),
            },
            *self is Multi && key is None ==> r is Err && r->Err_0 == MultiError::SingleNotMulti,
            *self is Single && key is Some ==> r is Err && r->Err_0 == MultiError::MultiNotSingle,
    {
        match (self, key) {
            (Multi::Single(v), None) => Ok(v),
            (Multi::Multi(m), Some(k)) => match find_named(m, k) {
                Some(i) => {
                    assert(is_first_named(m@, k@, i as int) && m[i as int].1 == m@[i as int].1);
                    Ok(&m[i].1)
                },
                None => Err(MultiError::MultiKeyNotFound),
            },
            (Multi::Multi(_), None) => Err(MultiError::SingleNotMulti),
            (Multi::Single(_), Some(_)) => Err(MultiError::MultiNotSingle),
        }
    }

    /// The value, for change: without a name for a single setting, under the
    /// name otherwise.
    pub fn get_mut(&mut self, key: Option<&str>) -> (r: Result<&mut T, MultiError>)
        ensures
            *old(self) is Single && key is None ==> r is Ok && *r->Ok_0 == old(self)->Single_0
                && *final(self) == Multi::<T>::Single(*final(r->Ok_0)),
            *old(self) is Multi && key is Some ==> match r {
                Ok(v) => exists|i: int|
                    is_first_named(old(self)->Multi_0@, key->Some_0@, i) && *v == old(
                        self,
                    )->Multi_0@[i].1 && *final(self) is Multi && final(self)->Multi_0@ == old(
                        self,
                    )->Multi_0@.update(i, (old(self)->Multi_0@[i].0, *final(v))),
                Err(e) => e == MultiError::MultiKeyNotFound && !has_name(
                    old(self)->Multi_0@,
                    key->Some_0@,
                ),
            },
            *old(self) is Multi && key is None ==> r is Err && r->Err_0
                == MultiError::SingleNotMulti,
            *old(self) is Single && key is Some ==> r is Err && r->Err_0
                == MultiError::MultiNotSingle,
            r is Err ==> *final(self) == *old(self),
    {
        match (self, key) {
            (Multi::Single(v), None) => Ok(v),
            (Multi::Multi(m), Some(k)) => match find_named(m, k) {
                Some(i) => {
                    assert(is_first_named(m@, k@, i as int));
                    Ok(&mut m[i].1)
                },
                None => Err(MultiError::MultiKeyNotFound),
            },
            (Multi::Multi(_), None) => Err(MultiError::SingleNotMulti),
            (Multi::Single(_), Some(_)) => Err(MultiError::MultiNotSingle),
        }
    }

    /// A setting of the same shape whose values `f` computes from the names
    /// (none for a single setting).
    pub fn map<U, F: Fn(Option<&str>) -> U>(&self, f: F) -> (r: Multi<U>)
        requires
            forall|k: Option<&str>| #[trigger] f.requires((k,)),
        ensures
            match (*self, r) {
                (Multi::Single(_), Multi::Single(u)) => f.ensures((None,), u),
                (Multi::Multi(m), Multi::Multi(n)) => n@.len() == m@.len() && forall|i: int|
                    0 <= i < m@.len() ==> (#[trigger] n@[i]).0@ == m@[i].0@ && exists|s: &str|
                        s@ == m@[i].0@ && #[trigger] f.ensures((Some(s),), n@[i].1),
                _ => false,
            },
    {
        match self {
            Multi::Single(_) => Multi::Single(f(None)),
            Multi::Multi(m) => {
                let mut n: Vec<(String, U)> = Vec::new();
                let mut i: usize = 0;
                while i < m.len()
                    invariant
                        i <= m@.len(),
                        n@.len() == i,
                        forall|k: Option<&str>| #[trigger] f.requires((k,)),
                        forall|j: int|
                            0 <= j < i ==> (#[trigger] n@[j]).0@ == m@[j].0@ && exists|s: &str|
                                s@ == m@[j].0@ && #[trigger] f.ensures((Some(s),), n@[j].1),
                    decreases m@.len() - i,
                {
                    let k = m[i].0.as_str();
                    let u = f(Some(k));
                    let ghost n0 = n@;
                    n.push((m[i].0.clone(), u));
                    assert forall|j: int| 0 <= j < i + 1 implies (#[trigger] n@[j]).0@ == m@[j].0@
                        && exists|s: &str| s@ == m@[j].0@ && #[trigger] f.ensures((Some(s),), n@[j].1) by {
                        if j < i {
                            assert(n@[j] == n0[j]);
                        } else {
                            assert(f.ensures((Some(k),), n@[j].1));
                        }
                    }
                    i = i + 1;
                }
                Multi::Multi(n)
            },
        }
    }
}

impl<T: Default + PartialEq> Multi<T> {
    /// Whether this is the default setting: a single default value.
    pub fn is_default(&self) -> (r: bool)
        ensures
            r ==> *self is Single,
    {
        match self {
            Multi::Single(v) => *v == T::default(),
            Multi::Multi(_) => false,
        }
    }
}

} // verus!
