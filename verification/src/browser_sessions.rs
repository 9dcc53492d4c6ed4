//! The table of named browser sessions: which name a new session gets, which
//! session a request reuses, and which session a stop destroys. Creating and
//! destroying sessions is done by the browser service.
use vstd::prelude::*;
use crate::text::{opt_chars, str_chars, trim_bounds, slice_to_vec, string_from_chars, spec_trim};
use dashmap::DashMap;
use crate::dash::{sessions_of, sessions_new, sessions_insert, sessions_remove, sessions_get, sessions_any_key, sessions_keys};

verus! {

/// `std::time::Instant`, carried without looking inside.
#[verifier::external_type_specification]
#[verifier::external_body]
pub struct ExInstant(std::time::Instant);

/// `std::time::Instant::now`. Nothing is stated of the instant it returns:
/// it is the time.
#[verifier::external_body]
fn instant_now() -> std::time::Instant {
    std::time::Instant::now()
}

/// A browser session kept under a name, with when it was last used.
pub struct BrowserSessionEntry {
    pub session_id: String,
    pub last_used: std::time::Instant,
}

/// The named sessions, kept in a concurrent map as the runtime shares it.
pub struct SessionTable {
    pub sessions: DashMap<String, BrowserSessionEntry>,
}

/// The name a new session is kept under: the requested name, trimmed,
/// when it is not blank; else the session's id.
pub open spec fn spec_session_name(requested: Option<Seq<char>>, session_id: Seq<char>) -> Seq<char> {
    match requested {
        Some(r) if spec_trim(r).len() > 0 => spec_trim(r),
        _ => session_id,
    }
}

pub fn session_name(requested: Option<String>, session_id: &String) -> (res: String)
    ensures
        res@ == spec_session_name(opt_chars(requested), session_id@),
{
    match requested {
        Some(r) => {
            let c = str_chars(r.as_str());
            let (a, b) = trim_bounds(c.as_slice());
            if a < b {
                let t = slice_to_vec(c.as_slice(), a, b);
                return string_from_chars(t.as_slice());
            }
            session_id.clone()
        },
        None => session_id.clone(),
    }
}

impl SessionTable {
    pub closed spec fn names(&self) -> Set<Seq<char>> {
        sessions_of(self.sessions).dom()
    }

    pub closed spec fn session_of(&self, name: Seq<char>) -> Seq<char> {
        sessions_of(self.sessions)[name]
    }

    pub fn new() -> (res: Self)
        ensures
            res.names().is_empty(),
    {
        SessionTable { sessions: sessions_new() }
    }

    /// Keeps the session the browser service created under its name (see
    /// `spec_session_name`), unless a session is already kept under that
    /// name; the name either way.
    pub fn register(&mut self, requested_name: Option<String>, session_id: String) -> (res: String)
        ensures
            res@ == spec_session_name(opt_chars(requested_name), session_id@),
            final(self).names() == old(self).names().insert(res@),
            old(self).names().contains(res@) ==> final(self).session_of(res@) == old(self).session_of(res@),
            !old(self).names().contains(res@) ==> final(self).session_of(res@) == session_id@,
            forall|n: Seq<char>| n != res@ && #[trigger] old(self).names().contains(n) ==> final(self).session_of(n)
                == old(self).session_of(n),
    {
        let name = session_name(requested_name, &session_id);
        if sessions_get(&self.sessions, name.as_str()).is_some() {
            proof {
                assert(self.names().insert(name@) =~= self.names());
            }
            return name;
        }
        sessions_insert(&mut self.sessions, name.clone(), BrowserSessionEntry { session_id, last_used: instant_now() });
        name
    }

    /// The session a request uses: the requested one, touched, when it is
    /// kept (an error naming it when not); without a request, some kept
    /// session, touched; `None` when a new session must be created.
    pub fn ensure(&mut self, requested: Option<String>) -> (res: Result<Option<String>, String>)
        ensures
            final(self).names() == old(self).names(),
            forall|n: Seq<char>| #[trigger] old(self).names().contains(n) ==> final(self).session_of(n)
                == old(self).session_of(n),
            match requested {
                Some(id) => if old(self).names().contains(id@) {
                    res matches Ok(Some(n)) && n@ == id@
                } else {
                    res matches Err(m) && m@ == "Session "@ + id@ + " not found"@
                },
                None => match res {
                    Ok(Some(n)) => old(self).names().contains(n@),
                    Ok(None) => old(self).names().len() == 0,
                    Err(_) => false,
                },
            },
    {
        match requested {
            Some(id) => {
                match sessions_get(&self.sessions, id.as_str()) {
                    Some(sid) => {
                        self.touch(id.clone(), sid);
                        Ok(Some(id))
                    },
                    None => {
                        let mut m = crate::text::owned("Session ");
                        m.append(id.as_str());
                        m.append(" not found");
                        Err(m)
                    },
                }
            },
            None => match sessions_any_key(&self.sessions) {
                Some(k) => {
                    let sid = match sessions_get(&self.sessions, k.as_str()) {
                        Some(s) => s,
                        None => String::new(),
                    };
                    self.touch(k.clone(), sid);
                    Ok(Some(k))
                },
                None => Ok(None),
            },
        }
    }

    /// Renews the last-used instant of the session kept under `name`. The
    /// new instant is the time, so no clause states it; what the contract
    /// states is that names and session ids stay as they were.
    fn touch(&mut self, name: String, session_id: String)
        requires
            old(self).names().contains(name@),
            old(self).session_of(name@) == session_id@,
        ensures
            final(self).names() == old(self).names(),
            forall|n: Seq<char>| #[trigger] old(self).names().contains(n) ==> final(self).session_of(n)
                == old(self).session_of(n),
    {
        let ghost before = self.names();
        sessions_insert(&mut self.sessions, name, BrowserSessionEntry { session_id, last_used: instant_now() });
        proof {
            assert(self.names() =~= before);
        }
    }

    /// The names of the kept sessions, each once.
    pub fn list(&self) -> (res: Vec<String>)
        ensures
            res@.map_values(|s: String| s@).no_duplicates(),
            res@.map_values(|s: String| s@).to_set() == self.names(),
    {
        sessions_keys(&self.sessions)
    }

    /// Forgets the session kept under `id`; its session id, for the browser
    /// service to destroy, or `None` when there is none.
    pub fn stop(&mut self, id: &str) -> (res: Option<String>)
        ensures
            final(self).names() == old(self).names().remove(id@),
            match res {
                Some(s) => old(self).names().contains(id@) && s@ == old(self).session_of(id@),
                None => !old(self).names().contains(id@),
            },
    {
        sessions_remove(&mut self.sessions, id)
    }

    /// The session id kept under a name.
    pub fn session_id_for(&self, name: &str) -> (res: Option<String>)
        ensures
            match res {
                Some(s) => self.names().contains(name@) && s@ == self.session_of(name@),
                None => !self.names().contains(name@),
            },
    {
        sessions_get(&self.sessions, name)
    }
}

} // verus!
