//! Command catalogs per platform, with user overrides.
//!
//! A user can drop `<platform>.json` (a JSON array of strings) into the
//! override directory; it replaces that platform's catalog. The registry
//! here holds the active catalogs; reading the directory is done by the
//! application shell, which hands each file's stem and text to
//! [`CatalogRegistry::apply_file`].
use vstd::prelude::*;
use crate::importers::ssh_config::{joined, plain_join};
use crate::platform::{platform_from_id, HintError, Platform};

verus! {

/// What `serde_json::from_str::<Vec<String>>` makes of `json`: the strings
/// when it is a JSON array of strings, `None` otherwise.
pub uninterp spec fn json_string_array(json: Seq<char>) -> Option<Seq<Seq<char>>>;

/// The views of a vector of strings.
pub open spec fn string_views(v: Seq<String>) -> Seq<Seq<char>> {
    Seq::new(v.len(), |i: int| v[i]@)
}

/// Parses a JSON array of strings.
///
/// Trusted: `serde_json::from_str::<Vec<String>>`. The result is named
/// (`json_string_array`); on failure serde_json's error message is returned,
/// whose text is left unsaid.
#[verifier::external_body]
pub(crate) fn parse_json_string_array(json: &str) -> (r: Result<Vec<String>, String>)
    ensures
        r matches Ok(v) ==> json_string_array(json@) == Some(string_views(v@)),
        r is Err ==> json_string_array(json@) is None,
{
    serde_json::from_str::<Vec<String>>(json).map_err(|e| e.to_string())
}

/// Index of a platform in the registry table.
pub open spec fn slot(p: Platform) -> int {
    match p {
        Platform::Generic => 0,
        Platform::Linux => 1,
        Platform::CiscoIos => 2,
        Platform::Juniper => 3,
        Platform::Mikrotik => 4,
        Platform::Aruba => 5,
        Platform::Fortigate => 6,
        Platform::Fortimanager => 7,
        Platform::PaloAlto => 8,
        Platform::F5Bigip => 9,
        Platform::CheckpointGaia => 10,
        Platform::HpComware => 11,
        Platform::BrocadeFos => 12,
    }
}

fn slot_of(p: Platform) -> (r: usize)
    ensures
        r == slot(p),
        r < 13,
{
    match p {
        Platform::Generic => 0,
        Platform::Linux => 1,
        Platform::CiscoIos => 2,
        Platform::Juniper => 3,
        Platform::Mikrotik => 4,
        Platform::Aruba => 5,
        Platform::Fortigate => 6,
        Platform::Fortimanager => 7,
        Platform::PaloAlto => 8,
        Platform::F5Bigip => 9,
        Platform::CheckpointGaia => 10,
        Platform::HpComware => 11,
        Platform::BrocadeFos => 12,
    }
}

/// Active catalogs, one slot per platform.
pub struct CatalogRegistry {
    /// Where the user can drop overrides, if configured.
    pub user_dir: Option<String>,
    /// The catalog of each platform, indexed by `slot`.
    pub catalogs: Vec<Vec<String>>,
}

impl CatalogRegistry {
    /// Well-formedness: one catalog per platform.
    pub open spec fn wf(&self) -> bool {
        self.catalogs@.len() == 13
    }

    /// The catalog of `p` as seen by callers (`Generic` is always empty).
    pub open spec fn catalog(&self, p: Platform) -> Seq<Seq<char>> {
        if p == Platform::Generic {
            Seq::empty()
        } else {
            string_views(self.catalogs@[slot(p)]@)
        }
    }

    /// A registry holding the bundled catalogs, read from `data` (each
    /// platform's bundled JSON text; a later text for a platform replaces
    /// an earlier one, and `Generic` stays empty), with `user_dir` as the
    /// override directory. A bundled text that is not a JSON array of
    /// strings is refused with an error naming its platform.
    pub fn bundled(user_dir: Option<String>, data: &Vec<(Platform, String)>) -> (r: Result<Self, HintError>)
        ensures
            r is Ok == (forall|i: int| 0 <= i < data@.len() ==> (#[trigger] json_string_array(data@[i].1@)) is Some),
            r matches Ok(reg) ==> {
                &&& reg.wf()
                &&& reg.user_dir == user_dir
                &&& forall|q: Platform| #[trigger] reg.catalog(q) == bundled_catalog(data_views(data@), q)
            },
            r matches Err(e) ==> exists|i: int|
                0 <= i < data@.len() && (forall|k: int| 0 <= k < i ==> (#[trigger] json_string_array(data@[k].1@)) is Some)
                    && json_string_array(data@[i].1@) is None && (e matches HintError::InvalidUserCatalog {
                    file,
                    reason,
                } && file@ == crate::platform::platform_id(data@[i].0)),
    {
        let mut catalogs: Vec<Vec<String>> = Vec::new();
        let mut i: usize = 0;
        while i < 13
            invariant
                i <= 13,
                catalogs@.len() == i,
                forall|k: int| 0 <= k < i ==> (#[trigger] catalogs@[k])@.len() == 0,
            decreases 13 - i,
        {
            catalogs.push(Vec::new());
            i = i + 1;
        }
        let mut reg = CatalogRegistry { user_dir, catalogs };
        let ghost dv = data_views(data@);
        assert forall|q: Platform| #[trigger] reg.catalog(q) == bundled_catalog(dv.take(0), q) by {
            if q != Platform::Generic {
                assert(reg.catalogs@[slot(q)]@.len() == 0);
                assert(string_views(reg.catalogs@[slot(q)]@) =~= Seq::<Seq<char>>::empty());
            }
        }
        let mut j: usize = 0;
        while j < data.len()
            invariant
                j <= data@.len(),
                dv == data_views(data@),
                reg.wf(),
                reg.user_dir == user_dir,
                forall|k: int| 0 <= k < j ==> (#[trigger] json_string_array(data@[k].1@)) is Some,
                forall|q: Platform| #[trigger] reg.catalog(q) == bundled_catalog(dv.take(j as int), q),
            decreases data.len() - j,
        {
            let p = data[j].0;
            assert(dv.take(j + 1).drop_last() =~= dv.take(j as int));
            assert(dv.take(j + 1).last() == dv[j as int]);
            match parse_json_string_array(data[j].1.as_str()) {
                Err(reason) => {
                    return Err(HintError::InvalidUserCatalog { file: crate::text::owned(p.as_str()), reason });
                },
                Ok(items) => {
                    if p != Platform::Generic {
                        let ghost old_reg = reg;
                        let s = slot_of(p);
                        reg.catalogs.set(s, items);
                        assert forall|q: Platform| #[trigger] reg.catalog(q) == bundled_catalog(dv.take(j + 1), q) by {
                            if q != p && q != Platform::Generic {
                                assert(slot(q) != slot(p));
                                assert(reg.catalog(q) == old_reg.catalog(q));
                            }
                        }
                    } else {
                        assert forall|q: Platform| #[trigger] reg.catalog(q) == bundled_catalog(dv.take(j + 1), q) by {
                            assert(reg.catalog(q) == bundled_catalog(dv.take(j as int), q));
                        }
                    }
                },
            }
            j = j + 1;
        }
        assert(dv.take(data@.len() as int) =~= dv);
        Ok(reg)
    }

    /// The active catalog for `platform`; `Generic` is always empty.
    pub fn for_platform(&self, platform: Platform) -> (r: Vec<String>)
        requires
            self.wf(),
        ensures
            string_views(r@) == self.catalog(platform),
    {
        if platform == Platform::Generic {
            let r: Vec<String> = Vec::new();
            assert(string_views(r@) =~= Seq::<Seq<char>>::empty());
            return r;
        }
        let src = &self.catalogs[slot_of(platform)];
        let mut r: Vec<String> = Vec::new();
        let mut k: usize = 0;
        while k < src.len()
            invariant
                k <= src@.len(),
                string_views(r@) =~= string_views(src@.take(k as int)),
            decreases src.len() - k,
        {
            let item = src[k].clone();
            let ghost before = r@;
            r.push(item);
            proof {
                assert(string_views(r@) =~= string_views(before).push(item@));
                assert(string_views(src@.take(k + 1)) =~= string_views(src@.take(k as int)).push(
                    src@[k as int]@,
                ));
            }
            k = k + 1;
        }
        assert(src@.take(k as int) =~= src@);
        r
    }

    /// Applies one override file named `<stem>.json` with text `json`.
    /// Returns `Ok(true)` when a platform's catalog was replaced, `Ok(false)`
    /// when the stem names no platform (or `generic`), and an
    /// `InvalidUserCatalog` error naming the file when the text is not a JSON
    /// array of strings.
    pub fn apply_file(&mut self, stem: &str, json: &str) -> (r: Result<bool, HintError>)
        requires
            old(self).wf(),
        ensures
            final(self).wf(),
            final(self).user_dir == old(self).user_dir,
            ({
                match platform_from_id(stem@) {
                    None => r == Ok::<bool, HintError>(false) && final(self).catalogs@ == old(self).catalogs@,
                    Some(Platform::Generic) => r == Ok::<bool, HintError>(false) && final(self).catalogs@ == old(self).catalogs@,
                    Some(p) => match json_string_array(json@) {
                        None => (r matches Err(HintError::InvalidUserCatalog { file, reason })
                            && file@ == stem@) && final(self).catalogs@ == old(self).catalogs@,
                        Some(items) => r == Ok::<bool, HintError>(true) && forall|q: Platform|
                            #[trigger] final(self).catalog(q) == if q == p {
                                items
                            } else {
                                old(self).catalog(q)
                            },
                    },
                }
            }),
    {
        let platform = match Platform::parse_id(stem) {
            Ok(Platform::Generic) => return Ok(false),
            Ok(p) => p,
            Err(_) => return Ok(false),
        };
        match parse_json_string_array(json) {
            Err(reason) => Err(HintError::InvalidUserCatalog { file: crate::text::owned(stem), reason }),
            Ok(items) => {
                let ghost old_self = *self;
                let s = slot_of(platform);
                self.catalogs.set(s, items);
                proof {
                    assert forall|q: Platform| #[trigger] self.catalog(q) == if q == platform {
                        json_string_array(json@).unwrap()
                    } else {
                        old_self.catalog(q)
                    } by {
                        if q != platform && q != Platform::Generic {
                            assert(slot(q) != slot(platform));
                        }
                    }
                }
                Ok(true)
            },
        }
    }

    /// The override directory, if configured.
    pub fn user_dir(&self) -> (r: Option<String>)
        ensures
            crate::model::opt_str(r) == crate::model::opt_str(self.user_dir),
    {
        match &self.user_dir {
            Some(d) => Some(d.clone()),
            None => None,
        }
    }

    /// The file that would override `platform`'s catalog: `<id>.json` in
    /// the override directory (none without one), after one separator. The
    /// separator is the platform's; a directory with a drive or verbatim
    /// prefix is joined the platform's way.
    pub fn user_catalog_path(&self, platform: Platform) -> (r: Option<String>)
        ensures
            r is Some == self.user_dir is Some,
            r matches Some(path) ==> (plain_dir(self.user_dir.unwrap()@) ==> joined(
                self.user_dir.unwrap()@,
                crate::platform::platform_id(platform) + ".json"@,
                path@,
            )),
    {
        match &self.user_dir {
            Some(d) => {
                let name = catalog_file_name(platform);
                proof {
                    lemma_file_name_plain(d@, platform);
                }
                Some(crate::importers::ssh_config::path_join(d.as_str(), name.as_str()))
            },
            None => None,
        }
    }
}

/// The override file name of a platform: its identifier and `.json`.
pub fn catalog_file_name(p: Platform) -> (r: String)
    ensures
        r@ == crate::platform::platform_id(p) + ".json"@,
{
    let mut r = crate::text::owned(p.as_str());
    crate::text::push_str(&mut r, ".json");
    r
}

/// A directory that joins the same way on every platform: not empty, no
/// drive (`:`), not starting with `\\`.
pub open spec fn plain_dir(d: Seq<char>) -> bool {
    d.len() > 0 && !d.contains(':') && d[0] != '\\'
}

proof fn lemma_file_name_plain(d: Seq<char>, p: Platform)
    ensures
        plain_dir(d) ==> plain_join(d, crate::platform::platform_id(p) + ".json"@),
{
    reveal_strlit(".json");
    reveal_strlit("generic");
    reveal_strlit("linux");
    reveal_strlit("cisco_ios");
    reveal_strlit("juniper");
    reveal_strlit("mikrotik");
    reveal_strlit("aruba");
    reveal_strlit("fortigate");
    reveal_strlit("fortimanager");
    reveal_strlit("paloalto");
    reveal_strlit("f5_bigip");
    reveal_strlit("checkpoint_gaia");
    reveal_strlit("hp_comware");
    reveal_strlit("brocade_fos");
    let n = crate::platform::platform_id(p) + ".json"@;
    assert(!n.contains(':')) by {
        if n.contains(':') {
            let k = choose|k: int| 0 <= k < n.len() && n[k] == ':';
            let id = crate::platform::platform_id(p);
            if k < id.len() {
                assert(n[k] == id[k]);
            } else {
                assert(n[k] == ".json"@[k - id.len()]);
            }
        }
    }
    assert(n[0] != '/' && n[0] != '\\');
}

/// The bundled texts as (platform, text) views.
pub open spec fn data_views(data: Seq<(Platform, String)>) -> Seq<(Platform, Seq<char>)> {
    Seq::new(data.len(), |i: int| (data[i].0, data[i].1@))
}

/// The bundled catalog of `q`: the strings of the last text given for it
/// (none for `Generic` or a platform without a text).
pub open spec fn bundled_catalog(data: Seq<(Platform, Seq<char>)>, q: Platform) -> Seq<Seq<char>>
    decreases data.len(),
{
    if data.len() == 0 || q == Platform::Generic {
        Seq::empty()
    } else if data.last().0 == q {
        match json_string_array(data.last().1) {
            Some(items) => items,
            None => Seq::empty(),
        }
    } else {
        bundled_catalog(data.drop_last(), q)
    }
}

} // verus!
