use vstd::prelude::*;

verus! {

/// The web settings of a node: pinned repositories (in the order they were
/// pinned, each once), and optional banner, avatar and description.
pub struct Config {
    pub pinned: Vec<String>,
    pub banner_url: Option<String>,
    pub avatar_url: Option<String>,
    pub description: Option<String>,
}

pub ghost struct ConfigView {
    pub pinned: Seq<Seq<char>>,
    pub banner_url: Option<Seq<char>>,
    pub avatar_url: Option<Seq<char>>,
    pub description: Option<Seq<char>>,
}

pub open spec fn text_view(o: Option<String>) -> Option<Seq<char>> {
    match o {
        Some(s) => Some(s@),
        None => None,
    }
}

impl View for Config {
    type V = ConfigView;

    open spec fn view(&self) -> ConfigView {
        ConfigView {
            pinned: self.pinned@.map_values(|s: String| s@),
            banner_url: text_view(self.banner_url),
            avatar_url: text_view(self.avatar_url),
            description: text_view(self.description),
        }
    }
}

fn copy_text(o: &Option<String>) -> (r: Option<String>)
    ensures
        text_view(r) == text_view(*o),
{
    match o {
        Some(s) => Some(s.clone()),
        None => None,
    }
}

impl Config {
    /// No repository pinned and no text set.
    pub fn new() -> (r: Config)
        ensures
            r@.pinned.len() == 0,
            r@.banner_url is None,
            r@.avatar_url is None,
            r@.description is None,
    {
        Config { pinned: Vec::new(), banner_url: None, avatar_url: None, description: None }
    }

    /// An independent copy holding the same settings.
    pub fn copy(&self) -> (r: Config)
        ensures
            r@ == self@,
    {
        let mut pinned: Vec<String> = Vec::new();
        let mut k: usize = 0;
        while k < self.pinned.len()
            invariant
                k <= self.pinned@.len(),
                pinned@.len() == k,
                forall|q: int| 0 <= q < k ==> (#[trigger] pinned@[q])@ == self.pinned@[q]@,
            decreases self.pinned@.len() - k,
        {
            let s = self.pinned[k].clone();
            pinned.push(s);
            k = k + 1;
        }
        let r = Config {
            pinned,
            banner_url: copy_text(&self.banner_url),
            avatar_url: copy_text(&self.avatar_url),
            description: copy_text(&self.description),
        };
        assert(r@.pinned =~= self@.pinned);
        r
    }

    /// Pins a repository, as an insertion into an ordered set: a repository
    /// already pinned stays where it is, a new one goes last. Returns whether
    /// it was new.
    pub fn pin(&mut self, rid: String) -> (added: bool)
        ensures
            added == !old(self)@.pinned.contains(rid@),
            added ==> final(self)@.pinned == old(self)@.pinned.push(rid@),
            !added ==> final(self)@.pinned == old(self)@.pinned,
            final(self)@.banner_url == old(self)@.banner_url,
            final(self)@.avatar_url == old(self)@.avatar_url,
            final(self)@.description == old(self)@.description,
    {
        let mut k: usize = 0;
        while k < self.pinned.len()
            invariant
                k <= self.pinned@.len(),
                forall|k2: int| 0 <= k2 < k ==> (#[trigger] self.pinned@[k2])@ != rid@,
            decreases self.pinned@.len() - k,
        {
            if self.pinned[k] == rid {
                proof {
                    assert(self@.pinned[k as int] == rid@);
                }
                return false;
            }
            k = k + 1;
        }
        proof {
            assert forall|k2: int| 0 <= k2 < self@.pinned.len() implies self@.pinned[k2] != rid@ by {
                assert(self@.pinned[k2] == self.pinned@[k2]@);
            }
        }
        self.pinned.push(rid);
        proof {
            assert(final(self)@.pinned =~= old(self)@.pinned.push(rid@));
        }
        true
    }

    /// Unpins every repository.
    pub fn unpin_all(&mut self)
        ensures
            final(self)@.pinned.len() == 0,
            final(self)@.banner_url == old(self)@.banner_url,
            final(self)@.avatar_url == old(self)@.avatar_url,
            final(self)@.description == old(self)@.description,
    {
        self.pinned.clear();
    }
}

/// The one live web configuration of the process. Readers get a copy of the
/// whole value; each update or reload replaces it in one step, so no reader
/// sees a value that only part of a change has reached.
pub struct WebConfig {
    current: Config,
}

impl WebConfig {
    /// The value held.
    pub closed spec fn value(&self) -> ConfigView {
        self.current@
    }

    /// A store holding the configuration of the node's profile.
    pub fn from_profile(config: Config) -> (r: WebConfig)
        ensures
            r.value() == config@,
    {
        WebConfig { current: config }
    }

    /// A copy of the whole current value.
    pub fn read(&self) -> (r: Config)
        ensures
            r@ == self.value(),
    {
        self.current.copy()
    }

    /// Applies `f` to the current value and keeps what it returns.
    pub fn update<F: FnOnce(Config) -> Config>(&mut self, f: F)
        requires
            forall|c: Config| f.requires((c,)),
        ensures
            exists|c: Config, n: Config|
                c@ == old(self).value() && f.ensures((c,), n) && final(self).value() == n@,
    {
        let mut taken = Config::new();
        std::mem::swap(&mut taken, &mut self.current);
        let next = f(taken);
        self.current = next;
    }

    /// Replaces the value with a newly built one; where building failed, the
    /// value stays as it was and the failure is handed back.
    pub fn reload<E>(&mut self, built: Result<Config, E>) -> (r: Result<(), E>)
        ensures
            r is Ok <==> built is Ok,
            built matches Ok(c) ==> final(self).value() == c@,
            built is Err ==> final(self).value() == old(self).value(),
    {
        match built {
            Ok(c) => {
                self.current = c;
                Ok(())
            },
            Err(e) => Err(e),
        }
    }
}

} // verus!
