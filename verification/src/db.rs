//! The deployment store.
//!
//! Rows of deployments and of their config-file locations, keyed by a
//! monotonically increasing identifier. The store models the persistent
//! table the agent owns: lookups, listing, insertion of a deployment with
//! its two config rows in one step, and deletion.

use vstd::prelude::*;

use crate::deployment;
use crate::error::PiteriaError;

verus! {

/// A deployment row: identifier, name, description, creation time (seconds
/// since the epoch).
#[derive(Debug, Clone)]
pub struct Deployment {
    pub id: i64,
    pub name: String,
    pub description: String,
    pub created_at: i64,
}

/// The mathematical content of a deployment row.
#[verifier::ext_equal]
pub ghost struct DeploymentView {
    pub id: int,
    pub name: Seq<char>,
    pub description: Seq<char>,
    pub created_at: int,
}

impl View for Deployment {
    type V = DeploymentView;

    open spec fn view(&self) -> DeploymentView {
        DeploymentView {
            id: self.id as int,
            name: self.name@,
            description: self.description@,
            created_at: self.created_at as int,
        }
    }
}

/// A config-file row: which deployment it belongs to and where its file
/// lives.
#[derive(Debug, Clone)]
pub struct Config {
    pub id: i64,
    pub deployment_id: i64,
    pub file_path: String,
    pub created_at: i64,
}

/// The mathematical content of a config row.
#[verifier::ext_equal]
pub ghost struct ConfigView {
    pub id: int,
    pub deployment_id: int,
    pub file_path: Seq<char>,
    pub created_at: int,
}

impl View for Config {
    type V = ConfigView;

    open spec fn view(&self) -> ConfigView {
        ConfigView {
            id: self.id as int,
            deployment_id: self.deployment_id as int,
            file_path: self.file_path@,
            created_at: self.created_at as int,
        }
    }
}

impl Deployment {
    /// A copy of the row, field by field.
    pub fn duplicate(&self) -> (r: Self)
        ensures
            r@ == self@,
    {
        Deployment {
            id: self.id,
            name: self.name.clone(),
            description: self.description.clone(),
            created_at: self.created_at,
        }
    }
}

impl Config {
    /// A copy of the row, field by field.
    pub fn duplicate(&self) -> (r: Self)
        ensures
            r@ == self@,
    {
        Config {
            id: self.id,
            deployment_id: self.deployment_id,
            file_path: self.file_path.clone(),
            created_at: self.created_at,
        }
    }
}

/// The rows of deployments and their two config tables.
#[derive(Debug)]
pub struct DeploymentStore {
    rows: Vec<Deployment>,
    nginx_rows: Vec<Config>,
    sysd_rows: Vec<Config>,
    next_id: i64,
}

/// The mathematical content of the store.
#[verifier::ext_equal]
pub ghost struct DeploymentStoreView {
    pub rows: Seq<DeploymentView>,
    pub nginx_rows: Seq<ConfigView>,
    pub sysd_rows: Seq<ConfigView>,
    pub next_id: int,
}

impl View for DeploymentStore {
    type V = DeploymentStoreView;

    closed spec fn view(&self) -> DeploymentStoreView {
        DeploymentStoreView {
            rows: self.rows@.map_values(|d: Deployment| d@),
            nginx_rows: self.nginx_rows@.map_values(|c: Config| c@),
            sysd_rows: self.sysd_rows@.map_values(|c: Config| c@),
            next_id: self.next_id as int,
        }
    }
}

/// Index of the first row with the given id, or the row count.
pub open spec fn spec_row_index(rows: Seq<DeploymentView>, id: int) -> int
    decreases rows.len(),
{
    if rows.len() == 0 {
        0
    } else if rows[0].id == id {
        0
    } else {
        1 + spec_row_index(rows.drop_first(), id)
    }
}

/// Index of the first config row for the given deployment, or the count.
pub open spec fn spec_config_index(rows: Seq<ConfigView>, deployment_id: int) -> int
    decreases rows.len(),
{
    if rows.len() == 0 {
        0
    } else if rows[0].deployment_id == deployment_id {
        0
    } else {
        1 + spec_config_index(rows.drop_first(), deployment_id)
    }
}

proof fn lemma_row_index_at(rows: Seq<DeploymentView>, id: int, k: int)
    requires
        0 <= k <= rows.len(),
        forall|j: int| 0 <= j < k ==> rows[j].id != id,
        k < rows.len() ==> rows[k].id == id,
    ensures
        spec_row_index(rows, id) == k,
    decreases rows.len(),
{
    if rows.len() > 0 && rows[0].id != id {
        assert(forall|j: int| 0 <= j < k - 1 ==> rows.drop_first()[j].id != id);
        lemma_row_index_at(rows.drop_first(), id, k - 1);
    }
}

proof fn lemma_config_index_at(rows: Seq<ConfigView>, did: int, k: int)
    requires
        0 <= k <= rows.len(),
        forall|j: int| 0 <= j < k ==> rows[j].deployment_id != did,
        k < rows.len() ==> rows[k].deployment_id == did,
    ensures
        spec_config_index(rows, did) == k,
    decreases rows.len(),
{
    if rows.len() > 0 && rows[0].deployment_id != did {
        assert(forall|j: int| 0 <= j < k - 1 ==> rows.drop_first()[j].deployment_id != did);
        lemma_config_index_at(rows.drop_first(), did, k - 1);
    }
}

/// The rows that survive deleting `id`, in order.
pub open spec fn spec_rows_without(rows: Seq<DeploymentView>, id: int) -> Seq<DeploymentView>
    decreases rows.len(),
{
    if rows.len() == 0 {
        Seq::empty()
    } else if rows.last().id != id {
        spec_rows_without(rows.drop_last(), id).push(rows.last())
    } else {
        spec_rows_without(rows.drop_last(), id)
    }
}

/// Whether a lookup of `id` succeeds: the deployment row and both config
/// rows exist.
pub open spec fn spec_lookup_ok(s: DeploymentStoreView, id: int) -> bool {
    &&& spec_row_index(s.rows, id) < s.rows.len()
    &&& spec_config_index(s.nginx_rows, id) < s.nginx_rows.len()
    &&& spec_config_index(s.sysd_rows, id) < s.sysd_rows.len()
}

impl DeploymentStore {
    /// An empty store; identifiers start at 1, as the database engine's
    /// row ids do.
    pub fn new() -> (r: Self)
        ensures
            r@.rows == Seq::<DeploymentView>::empty(),
            r@.nginx_rows == Seq::<ConfigView>::empty(),
            r@.sysd_rows == Seq::<ConfigView>::empty(),
            r@.next_id == 1,
    {
        let r = DeploymentStore {
            rows: Vec::new(),
            nginx_rows: Vec::new(),
            sysd_rows: Vec::new(),
            next_id: 1,
        };
        proof {
            assert(r@.rows =~= Seq::<DeploymentView>::empty());
            assert(r@.nginx_rows =~= Seq::<ConfigView>::empty());
            assert(r@.sysd_rows =~= Seq::<ConfigView>::empty());
        }
        r
    }

    /// Look up a deployment and its two config rows. Succeeds exactly when
    /// all three exist; otherwise the deployment is reported as not found.
    pub fn get_deployment(&self, id: i64) -> (r: Result<(Deployment, Config, Config), PiteriaError>)
        ensures
            match r {
                Ok(t) => spec_lookup_ok(self@, id as int) && t.0@ == self@.rows[spec_row_index(
                    self@.rows,
                    id as int,
                )] && t.1@ == self@.nginx_rows[spec_config_index(self@.nginx_rows, id as int)]
                    && t.2@ == self@.sysd_rows[spec_config_index(self@.sysd_rows, id as int)],
                Err(e) => !spec_lookup_ok(self@, id as int) && e == PiteriaError::NotFound(id),
            },
    {
        let row = match self.find_row(id) {
            Some(d) => d,
            None => {
                return Err(PiteriaError::NotFound(id));
            },
        };
        let nginx = match Self::find_config(&self.nginx_rows, id) {
            Some(c) => c,
            None => {
                return Err(PiteriaError::NotFound(id));
            },
        };
        let sysd = match Self::find_config(&self.sysd_rows, id) {
            Some(c) => c,
            None => {
                return Err(PiteriaError::NotFound(id));
            },
        };
        Ok((row, nginx, sysd))
    }

    fn find_row(&self, id: i64) -> (r: Option<Deployment>)
        ensures
            match r {
                Some(d) => spec_row_index(self@.rows, id as int) < self@.rows.len() && d@
                    == self@.rows[spec_row_index(self@.rows, id as int)],
                None => spec_row_index(self@.rows, id as int) == self@.rows.len(),
            },
    {
        let ghost rv = self@.rows;
        let mut i: usize = 0;
        while i < self.rows.len()
            invariant
                i <= self.rows@.len(),
                rv == self.rows@.map_values(|d: Deployment| d@),
                forall|j: int| 0 <= j < i ==> rv[j].id != id as int,
            decreases self.rows@.len() - i,
        {
            if self.rows[i].id == id {
                proof {
                    lemma_row_index_at(rv, id as int, i as int);
                }
                return Some(self.rows[i].duplicate());
            }
            i += 1;
        }
        proof {
            lemma_row_index_at(rv, id as int, rv.len() as int);
        }
        None
    }

    fn find_config(rows: &Vec<Config>, id: i64) -> (r: Option<Config>)
        ensures
            ({
                let rv = rows@.map_values(|c: Config| c@);
                match r {
                    Some(c) => spec_config_index(rv, id as int) < rv.len() && c@
                        == rv[spec_config_index(rv, id as int)],
                    None => spec_config_index(rv, id as int) == rv.len(),
                }
            }),
    {
        let ghost rv = rows@.map_values(|c: Config| c@);
        let mut i: usize = 0;
        while i < rows.len()
            invariant
                i <= rows@.len(),
                rv == rows@.map_values(|c: Config| c@),
                forall|j: int| 0 <= j < i ==> rv[j].deployment_id != id as int,
            decreases rows@.len() - i,
        {
            if rows[i].deployment_id == id {
                proof {
                    lemma_config_index_at(rv, id as int, i as int);
                }
                return Some(rows[i].duplicate());
            }
            i += 1;
        }
        proof {
            lemma_config_index_at(rv, id as int, rv.len() as int);
        }
        None
    }

    /// Insert a deployment with its two config rows, all stamped with the
    /// given creation time, and return the new row. Fails only when the
    /// identifier space is exhausted.
    pub fn insert_deployment(&mut self, d: &deployment::Deployment, created_at: i64) -> (r: Result<
        Deployment,
        PiteriaError,
    >)
        ensures
            match r {
                Ok(row) => old(self)@.next_id < i64::MAX && row@.id == old(self)@.next_id
                    && row@.name == d.name@ && row@.description == d.description@
                    && row@.created_at == created_at as int && final(self)@.rows == old(
                    self,
                )@.rows.push(row@) && final(self)@.nginx_rows == old(self)@.nginx_rows.push(
                    ConfigView {
                        id: old(self)@.next_id,
                        deployment_id: old(self)@.next_id,
                        file_path: d.nginx_cfg.file_location@,
                        created_at: created_at as int,
                    },
                ) && final(self)@.sysd_rows == old(self)@.sysd_rows.push(
                    ConfigView {
                        id: old(self)@.next_id,
                        deployment_id: old(self)@.next_id,
                        file_path: d.service_cfg.file_location@,
                        created_at: created_at as int,
                    },
                ) && final(self)@.next_id == old(self)@.next_id + 1,
                Err(_) => old(self)@.next_id == i64::MAX && final(self)@ == old(self)@,
            },
    {
        if self.next_id == i64::MAX {
            return Err(PiteriaError::IO("deployment id space exhausted".to_owned()));
        }
        let id = self.next_id;
        let row = Deployment {
            id,
            name: d.name.clone(),
            description: d.description.clone(),
            created_at,
        };
        let nginx = Config {
            id,
            deployment_id: id,
            file_path: d.nginx_cfg.file_location.clone(),
            created_at,
        };
        let sysd = Config {
            id,
            deployment_id: id,
            file_path: d.service_cfg.file_location.clone(),
            created_at,
        };
        let out = row.duplicate();
        self.rows.push(row);
        self.nginx_rows.push(nginx);
        self.sysd_rows.push(sysd);
        self.next_id = id + 1;
        proof {
            assert(self@.rows =~= old(self)@.rows.push(out@));
            assert(self@.nginx_rows =~= old(self)@.nginx_rows.push(
                ConfigView {
                    id: id as int,
                    deployment_id: id as int,
                    file_path: d.nginx_cfg.file_location@,
                    created_at: created_at as int,
                },
            ));
            assert(self@.sysd_rows =~= old(self)@.sysd_rows.push(
                ConfigView {
                    id: id as int,
                    deployment_id: id as int,
                    file_path: d.service_cfg.file_location@,
                    created_at: created_at as int,
                },
            ));
        }
        Ok(out)
    }

    /// All deployment rows, in insertion order.
    pub fn list_deployments(&self) -> (r: Vec<Deployment>)
        ensures
            r@.map_values(|d: Deployment| d@) == self@.rows,
    {
        let mut out: Vec<Deployment> = Vec::new();
        let mut i: usize = 0;
        while i < self.rows.len()
            invariant
                i <= self.rows@.len(),
                out@.map_values(|d: Deployment| d@) == self@.rows.subrange(0, i as int),
            decreases self.rows@.len() - i,
        {
            out.push(self.rows[i].duplicate());
            i += 1;
            proof {
                assert(self@.rows[i - 1] == self.rows@[i - 1]@);
                assert(self@.rows.subrange(0, i as int).drop_last() =~= self@.rows.subrange(
                    0,
                    i - 1,
                ));
                assert(self@.rows.subrange(0, i as int).last() == self@.rows[i - 1]);
                assert(out@.map_values(|d: Deployment| d@) =~= self@.rows.subrange(0, i as int));
            }
        }
        proof {
            assert(self@.rows.subrange(0, self@.rows.len() as int) =~= self@.rows);
        }
        out
    }

    /// Delete every row with the given id and report how many went, as the
    /// database's delete reports affected rows. Config rows stay, as they
    /// do in the underlying table.
    pub fn delete_deployment(&mut self, id: i64) -> (n: u64)
        ensures
            final(self)@.rows == spec_rows_without(old(self)@.rows, id as int),
            n as int == old(self)@.rows.len() - final(self)@.rows.len(),
            final(self)@.nginx_rows == old(self)@.nginx_rows,
            final(self)@.sysd_rows == old(self)@.sysd_rows,
            final(self)@.next_id == old(self)@.next_id,
    {
        let ghost rv = self@.rows;
        let mut kept: Vec<Deployment> = Vec::new();
        let mut removed: u64 = 0;
        let mut i: usize = 0;
        while i < self.rows.len()
            invariant
                i <= self.rows@.len(),
                rv == self.rows@.map_values(|d: Deployment| d@),
                kept@.map_values(|d: Deployment| d@) == spec_rows_without(
                    rv.subrange(0, i as int),
                    id as int,
                ),
                removed as int == i - kept@.len(),
            decreases self.rows@.len() - i,
        {
            if self.rows[i].id != id {
                kept.push(self.rows[i].duplicate());
            } else {
                removed += 1;
            }
            i += 1;
            proof {
                let pre = rv.subrange(0, i as int);
                assert(pre.drop_last() =~= rv.subrange(0, i - 1));
                assert(pre.last() == rv[i - 1]);
                assert(kept@.map_values(|d: Deployment| d@) =~= spec_rows_without(
                    pre,
                    id as int,
                ));
            }
        }
        self.rows = kept;
        proof {
            assert(rv.subrange(0, rv.len() as int) =~= rv);
        }
        removed
    }
}

} // verus!
