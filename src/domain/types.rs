use vstd::prelude::*;
use vstd::string::*;

verus! {

/// Whether two texts are equal.
pub fn text_eq(a: &str, b: &str) -> (r: bool)
    ensures
        r == (a@ == b@),
{
    String::from_str(a) == String::from_str(b)
}

/// `owner` and `name` are the two non-empty, slash-free halves of `owner/name`.
pub open spec fn repo_parts_ok(owner: Seq<char>, name: Seq<char>) -> bool {
    &&& owner.len() > 0
    &&& name.len() > 0
    &&& !owner.contains('/')
    &&& !name.contains('/')
}

/// The text `owner/name`.
pub open spec fn repo_text(owner: Seq<char>, name: Seq<char>) -> Seq<char> {
    owner + seq!['/'] + name
}

/// `s` is a well-formed repository id.
pub open spec fn is_repo_text(s: Seq<char>) -> bool {
    exists|o: Seq<char>, n: Seq<char>| repo_parts_ok(o, n) && s == #[trigger] repo_text(o, n)
}

/// A GitHub repository, `owner/name`.
#[derive(Clone, Debug, PartialEq, Eq, Hash)]
pub struct RepoId {
    owner: String,
    name: String,
}

impl View for RepoId {
    type V = (Seq<char>, Seq<char>);

    closed spec fn view(&self) -> (Seq<char>, Seq<char>) {
        (self.owner@, self.name@)
    }
}

#[derive(Clone, Debug)]
pub enum RepoIdError {
    InvalidFormat(String),
}

impl RepoId {
    /// Accepts exactly `owner/name` with both halves non-empty.
    pub fn parse(s: &str) -> (r: Result<RepoId, RepoIdError>)
        ensures
            r is Ok <==> is_repo_text(s@),
            r matches Ok(id) ==> repo_parts_ok(id@.0, id@.1) && s@ == repo_text(id@.0, id@.1),
            r matches Err(RepoIdError::InvalidFormat(m)) ==> m@ == s@,
    {
        let len = s.unicode_len();
        let mut first: Option<usize> = None;
        let mut extra = false;
        let mut i: usize = 0;
        while i < len
            invariant
                len == s@.len(),
                i <= len,
                first is None ==> forall|j: int| 0 <= j < i ==> s@[j] != '/',
                first matches Some(k) ==> {
                    &&& k < i
                    &&& s@[k as int] == '/'
                    &&& forall|j: int| 0 <= j < k ==> s@[j] != '/'
                    &&& !extra ==> forall|j: int| k < j < i ==> s@[j] != '/'
                    &&& extra ==> exists|j: int| k < j < i && s@[j] == '/'
                },
                first is None ==> !extra,
            decreases len - i,
        {
            let c = s.get_char(i);
            if c == '/' {
                if first.is_none() {
                    first = Some(i);
                } else {
                    extra = true;
                }
            }
            i = i + 1;
        }
        match first {
            Some(k) => {
                if !extra && k > 0 && k + 1 < len {
                    let owner = s.substring_char(0, k);
                    let name = s.substring_char(k + 1, len);
                    let id = RepoId { owner: String::from_str(owner), name: String::from_str(name) };
                    proof {
                        assert(!id.owner@.contains('/')) by {
                            assert forall|j: int| 0 <= j < id.owner@.len() implies id.owner@[j] != '/' by {
                                assert(id.owner@[j] == s@[j]);
                            }
                        }
                        assert(!id.name@.contains('/')) by {
                            assert forall|j: int| 0 <= j < id.name@.len() implies id.name@[j] != '/' by {
                                assert(id.name@[j] == s@[j + k + 1]);
                            }
                        }
                        assert(s@ =~= repo_text(id.owner@, id.name@));
                    }
                    Ok(id)
                } else {
                    proof { Self::lemma_not_repo_text(s@, Some(k as int), extra); }
                    Err(RepoIdError::InvalidFormat(String::from_str(s)))
                }
            },
            None => {
                proof { Self::lemma_not_repo_text(s@, None, extra); }
                Err(RepoIdError::InvalidFormat(String::from_str(s)))
            },
        }
    }

    proof fn lemma_not_repo_text(s: Seq<char>, first: Option<int>, extra: bool)
        requires
            first is None ==> forall|j: int| 0 <= j < s.len() ==> s[j] != '/',
            first matches Some(k) ==> {
                &&& 0 <= k < s.len()
                &&& s[k] == '/'
                &&& forall|j: int| 0 <= j < k ==> s[j] != '/'
                &&& !extra ==> forall|j: int| k < j < s.len() ==> s[j] != '/'
                &&& extra ==> exists|j: int| k < j < s.len() && s[j] == '/'
                &&& extra || k == 0 || k + 1 >= s.len()
            },
        ensures
            !is_repo_text(s),
    {
        if is_repo_text(s) {
            let (o, n) = choose|o: Seq<char>, n: Seq<char>| repo_parts_ok(o, n) && s == #[trigger] repo_text(o, n);
            assert(s[o.len() as int] == '/');
            assert forall|j: int| 0 <= j < s.len() && j != o.len() implies s[j] != '/' by {
                if j < o.len() {
                    assert(s[j] == o[j]);
                } else {
                    assert(s[j] == n[j - o.len() - 1]);
                }
            }
            match first {
                Some(k) => {
                    assert(k == o.len());
                },
                None => {},
            }
        }
    }

    /// A copy with the same halves.
    pub fn duplicate(&self) -> (r: RepoId)
        ensures
            r@ == self@,
    {
        RepoId { owner: self.owner.clone(), name: self.name.clone() }
    }

    /// The text `owner/name`.
    pub fn as_str(&self) -> (r: String)
        ensures
            r@ == repo_text(self@.0, self@.1),
    {
        let mut out = self.owner.clone();
        out.append("/");
        out.append(self.name.as_str());
        proof {
            reveal_strlit("/");
            assert(out@ =~= repo_text(self@.0, self@.1));
        }
        out
    }
}

/// Where a change was observed.
#[derive(Clone, Copy, Debug, PartialEq, Eq, Structural)]
pub enum Source {
    GitHub,
    Npm,
    WhatsAppWeb,
}

/// The lower-case text of a source.
pub open spec fn source_text(s: Source) -> Seq<char> {
    match s {
        Source::GitHub => "github"@,
        Source::Npm => "npm"@,
        Source::WhatsAppWeb => "whatsapp-web"@,
    }
}

impl Source {
    /// The lower-case text of this source (`github`, `npm`, `whatsapp-web`).
    pub fn name(&self) -> (r: &'static str)
        ensures
            r@ == source_text(*self),
    {
        match self {
            Source::GitHub => "github",
            Source::Npm => "npm",
            Source::WhatsAppWeb => "whatsapp-web",
        }
    }

    /// The source whose text is `t`, if any.
    pub fn from_name(t: &str) -> (r: Option<Source>)
        ensures
            r matches Some(x) ==> source_text(x) == t@,
            r is None ==> forall|x: Source| source_text(x) != t@,
    {
        let s = String::from_str(t);
        if s == String::from_str("github") {
            Some(Source::GitHub)
        } else if s == String::from_str("npm") {
            Some(Source::Npm)
        } else if s == String::from_str("whatsapp-web") {
            Some(Source::WhatsAppWeb)
        } else {
            None
        }
    }
}

} // verus!
