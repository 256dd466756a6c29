//! Backups: what a backup holds of the graph and how a graph is rebuilt
//! from it, backup metadata and the manager's state, backup ids,
//! checksums, compression, and the checks made before a restore. Encoding
//! the backup as JSON, and reading and writing the files, are the caller's
//! part.

use vstd::prelude::*;
use vstd::string::StringExecFns;
use crate::auth::{sha256_hex, sha256_hex_digest};
use crate::clock::current_timestamp;
use crate::text::{decimal, u64_to_string, concat2, str_equal, utf8_encoding, utf8_text};
use crate::graph::{Edge, Entity, Graph, restore_graph, lists_values, EntityView, EdgeView, entities_after, edges_after};
use crate::types::{EdgeId, EntityId, Properties};
use std::io::{Read, Write};
use flate2::Compression;
use flate2::read::GzDecoder;
use flate2::write::GzEncoder;

verus! {

/// Backup type.
#[derive(Debug, Clone, Copy, PartialEq, Eq, Structural)]
pub enum BackupType {
    Full,
    Incremental,
}

/// Backup metadata.
#[derive(Debug, Clone)]
pub struct BackupMetadata {
    pub backup_id: String,
    pub backup_type: BackupType,
    pub timestamp: u64,
    pub entity_count: usize,
    pub edge_count: usize,
    pub compressed: bool,
    pub checksum: String,
    /// For incremental backups
    pub parent_backup_id: Option<String>,
}

/// Backup configuration; the backup directory is given as a path text.
#[derive(Debug, Clone)]
pub struct BackupConfig {
    pub backup_dir: String,
    pub compress: bool,
    pub verify: bool,
}

impl Default for BackupConfig {
    fn default() -> (r: Self)
        ensures
            r.backup_dir@ == "./backups"@,
            r.compress,
            r.verify,
    {
        BackupConfig { backup_dir: String::from_str("./backups"), compress: true, verify: true }
    }
}

/// The message of a backup directory that could not be created.
pub open spec fn dir_failure_msg(e: Seq<char>) -> Seq<char> {
    "Failed to create backup directory: "@ + e
}

/// The message of a backup whose checksum does not match.
pub open spec fn checksum_mismatch_msg() -> Seq<char> {
    "Backup checksum mismatch - data may be corrupted"@
}

/// The id of a backup taken at second `timestamp`.
pub open spec fn backup_id_spec(timestamp: u64) -> Seq<char> {
    "backup_"@ + decimal(timestamp as nat)
}

/// The SHA-256 checksum of serialized backup data, in lowercase hex.
pub fn calculate_checksum(data: &str) -> (r: String)
    ensures
        r@ == sha256_hex(data@),
{
    sha256_hex_digest(data)
}

/// The id of a backup taken at second `timestamp`.
pub fn backup_id_at(timestamp: u64) -> (r: String)
    ensures
        r@ == backup_id_spec(timestamp),
{
    let t = u64_to_string(timestamp);
    concat2("backup_", t.as_str())
}

/// The id of a backup taken now.
pub fn generate_backup_id() -> (r: String)
    ensures
        exists|t: u64| r@ == backup_id_spec(t),
{
    backup_id_at(current_timestamp())
}

/// Backup manager.
pub struct BackupManager {
    config: BackupConfig,
    last_backup_id: Option<String>,
}

impl BackupManager {
    /// The configuration.
    pub closed spec fn config_spec(&self) -> BackupConfig {
        self.config
    }

    /// The id of the last backup taken, if any.
    pub closed spec fn last_backup_spec(&self) -> Option<Seq<char>> {
        match self.last_backup_id {
            Some(s) => Some(s@),
            None => None,
        }
    }

    /// A manager for `config`, once its backup directory has been created;
    /// `dir_created` is the outcome of creating it (the error's text when
    /// that failed), which is refused.
    pub fn new(config: BackupConfig, dir_created: Result<(), String>) -> (r: Result<Self, String>)
        ensures
            dir_created matches Err(e) ==> (r matches Err(m) && m@ == dir_failure_msg(e@)),
            dir_created is Ok ==> (r matches Ok(b) && b.config_spec() == config && b.last_backup_spec() is None),
    {
        match dir_created {
            Err(e) => Err(concat2("Failed to create backup directory: ", e.as_str())),
            Ok(()) => Ok(BackupManager { config, last_backup_id: None }),
        }
    }

    /// A manager with the default configuration (`./backups`, compressed,
    /// verified), once that directory has been created.
    pub fn with_defaults(dir_created: Result<(), String>) -> (r: Result<Self, String>)
        ensures
            dir_created matches Err(e) ==> (r matches Err(m) && m@ == dir_failure_msg(e@)),
            dir_created is Ok ==> (r matches Ok(b) && b.config_spec().backup_dir@ == "./backups"@
                && b.config_spec().compress && b.config_spec().verify && b.last_backup_spec() is None),
    {
        Self::new(BackupConfig::default(), dir_created)
    }

    /// The configuration.
    pub fn config(&self) -> (r: &BackupConfig)
        ensures
            *r == self.config_spec(),
    {
        &self.config
    }

    /// The id of the last backup taken, if any.
    pub fn last_backup_id(&self) -> (r: Option<String>)
        ensures
            match r {
                Some(s) => self.last_backup_spec() == Some(s@),
                None => self.last_backup_spec() is None,
            },
    {
        match &self.last_backup_id {
            Some(s) => Some(s.clone()),
            None => None,
        }
    }

    /// Metadata of a full backup just written under `backup_id` at second
    /// `timestamp`; it becomes the last backup. Its compression follows the
    /// configuration.
    pub fn record_full_backup(
        &mut self,
        backup_id: String,
        timestamp: u64,
        entity_count: usize,
        edge_count: usize,
        checksum: String,
    ) -> (r: BackupMetadata)
        ensures
            r.backup_id@ == backup_id@,
            r.backup_type == BackupType::Full,
            r.timestamp == timestamp,
            r.entity_count == entity_count,
            r.edge_count == edge_count,
            r.compressed == old(self).config_spec().compress,
            r.checksum@ == checksum@,
            r.parent_backup_id is None,
            final(self).config_spec() == old(self).config_spec(),
            final(self).last_backup_spec() == Some(backup_id@),
    {
        let id_copy = backup_id.clone();
        self.last_backup_id = Some(id_copy);
        BackupMetadata {
            backup_id,
            backup_type: BackupType::Full,
            timestamp,
            entity_count,
            edge_count,
            compressed: self.config.compress,
            checksum,
            parent_backup_id: None,
        }
    }

    /// The integrity check before a restore: with verification on, the
    /// checksum of the serialized data must equal the recorded one.
    pub fn check_restore_data(&self, serialized: &str, metadata: &BackupMetadata) -> (r: Result<(), String>)
        ensures
            self.config_spec().verify && sha256_hex(serialized@) != metadata.checksum@
                ==> (r matches Err(e) && e@ == checksum_mismatch_msg()),
            !(self.config_spec().verify && sha256_hex(serialized@) != metadata.checksum@) ==> r is Ok,
    {
        if self.config.verify {
            let checksum = calculate_checksum(serialized);
            if !str_equal(checksum.as_str(), metadata.checksum.as_str()) {
                return Err(String::from_str("Backup checksum mismatch - data may be corrupted"));
            }
        }
        Ok(())
    }

    /// Whether serialized data matches the checksum in its metadata.
    pub fn verify_data(&self, serialized: &str, metadata: &BackupMetadata) -> (r: bool)
        ensures
            r == (sha256_hex(serialized@) == metadata.checksum@),
    {
        let checksum = calculate_checksum(serialized);
        str_equal(checksum.as_str(), metadata.checksum.as_str())
    }
}

// ---------------------------------------------------------------------
// What a backup holds
// ---------------------------------------------------------------------

/// An entity as a backup holds it.
#[derive(Debug)]
pub struct SerializedEntity {
    pub id: u64,
    pub entity_type: String,
    pub properties: Properties,
}

/// An edge as a backup holds it.
#[derive(Debug)]
pub struct SerializedEdge {
    pub id: u64,
    pub from_id: u64,
    pub to_id: u64,
    pub edge_type: String,
    pub properties: Properties,
}

/// The contents of a backup.
#[derive(Debug)]
pub struct BackupData {
    pub entities: Vec<SerializedEntity>,
    pub edges: Vec<SerializedEdge>,
}

impl SerializedEntity {
    /// The saved form of an entity: its ID, type and properties.
    pub fn from_entity(entity: &Entity) -> (r: Self)
        ensures
            r.id == entity.id.0,
            r.entity_type@ == entity.entity_type@,
            r.properties.entries_spec() == entity.properties.entries_spec(),
    {
        SerializedEntity {
            id: entity.id.0,
            entity_type: entity.entity_type.clone(),
            properties: entity.properties.copy(),
        }
    }

    /// The entity again, created now and never read.
    pub fn to_entity(&self) -> (r: Entity)
        ensures
            r.id.0 == self.id,
            r.entity_type@ == self.entity_type@,
            r.properties.entries_spec() == self.properties.entries_spec(),
            r.access_count == 0,
            r.last_accessed == r.created_at,
    {
        Entity::new(EntityId::new(self.id), self.entity_type.clone(), self.properties.copy())
    }
}

impl SerializedEdge {
    /// The saved form of an edge: its ID, ends, type and properties.
    pub fn from_edge(edge: &Edge) -> (r: Self)
        ensures
            r.id == edge.id.0,
            r.from_id == edge.source.0,
            r.to_id == edge.target.0,
            r.edge_type@ == edge.edge_type@,
            r.properties.entries_spec() == edge.properties.entries_spec(),
    {
        SerializedEdge {
            id: edge.id.0,
            from_id: edge.source.0,
            to_id: edge.target.0,
            edge_type: edge.edge_type.clone(),
            properties: edge.properties.copy(),
        }
    }

    /// The edge again, new: the initial pheromone level, never traversed,
    /// created now.
    pub fn to_edge(&self) -> (r: Edge)
        ensures
            r.id.0 == self.id,
            r.source.0 == self.from_id,
            r.target.0 == self.to_id,
            r.edge_type@ == self.edge_type@,
            r.properties.entries_spec() == self.properties.entries_spec(),
            r.pheromone_bits == crate::graph::PHEROMONE_INITIAL_BITS,
            r.traversal_count == 0,
            r.avg_latency_ns == 0,
    {
        Edge::new(
            EdgeId::new(self.id),
            EntityId::new(self.from_id),
            EntityId::new(self.to_id),
            self.edge_type.clone(),
            self.properties.copy(),
        )
    }
}

/// The contents of a backup of the graph: every entity and every edge
/// once, each in its saved form, in no particular order.
pub fn backup_data_of(graph: &Graph) -> (r: BackupData)
    ensures
        exists|s: Seq<EntityView>|
            #![trigger lists_values(graph.entities_spec(), s)]
            lists_values(graph.entities_spec(), s) && r.entities@.len() == s.len() && forall|i: int|
                0 <= i < s.len() ==> (#[trigger] r.entities@[i]).id == s[i].id && r.entities@[i].entity_type@
                    == s[i].entity_type && r.entities@[i].properties.entries_spec() == s[i].properties,
        exists|s: Seq<EdgeView>|
            #![trigger lists_values(graph.edges_spec(), s)]
            lists_values(graph.edges_spec(), s) && r.edges@.len() == s.len() && forall|i: int|
                0 <= i < s.len() ==> (#[trigger] r.edges@[i]).id == s[i].id && r.edges@[i].from_id == s[i].source
                    && r.edges@[i].to_id == s[i].target && r.edges@[i].edge_type@ == s[i].edge_type
                    && r.edges@[i].properties.entries_spec() == s[i].properties,
{
    let all_entities = graph.get_all_entities();
    let all_edges = graph.get_all_edges();
    let ghost es = all_entities@.map_values(|e: Entity| e@);
    let ghost ds = all_edges@.map_values(|e: Edge| e@);
    let mut entities: Vec<SerializedEntity> = Vec::new();
    let mut i: usize = 0;
    while i < all_entities.len()
        invariant
            i <= all_entities@.len(),
            es == all_entities@.map_values(|e: Entity| e@),
            entities@.len() == i,
            forall|j: int|
                0 <= j < i ==> (#[trigger] entities@[j]).id == es[j].id && entities@[j].entity_type@ == es[j].entity_type
                    && entities@[j].properties.entries_spec() == es[j].properties,
        decreases all_entities.len() - i,
    {
        entities.push(SerializedEntity::from_entity(&all_entities[i]));
        i = i + 1;
    }
    let mut edges: Vec<SerializedEdge> = Vec::new();
    let mut k: usize = 0;
    while k < all_edges.len()
        invariant
            k <= all_edges@.len(),
            ds == all_edges@.map_values(|e: Edge| e@),
            edges@.len() == k,
            forall|j: int|
                0 <= j < k ==> (#[trigger] edges@[j]).id == ds[j].id && edges@[j].from_id == ds[j].source
                    && edges@[j].to_id == ds[j].target && edges@[j].edge_type@ == ds[j].edge_type
                    && edges@[j].properties.entries_spec() == ds[j].properties,
        decreases all_edges.len() - k,
    {
        edges.push(SerializedEdge::from_edge(&all_edges[k]));
        k = k + 1;
    }
    BackupData { entities, edges }
}

/// `i` is the last place in `ids` that holds its ID.
pub open spec fn last_of(ids: Seq<u64>, i: int) -> bool {
    0 <= i < ids.len() && forall|m: int| i < m < ids.len() ==> ids[m] != ids[i]
}

/// Storing entities in turn keeps exactly their IDs, each with the last
/// entity stored under it.
pub proof fn lemma_entities_after(es: Seq<EntityView>)
    ensures
        forall|k: u64| entities_after(es).contains_key(k) <==> exists|i: int| 0 <= i < es.len() && (#[trigger] es[i]).id == k,
        forall|i: int| last_of(es.map_values(|e: EntityView| e.id), i) ==> entities_after(es)[(#[trigger] es[i]).id] == es[i],
    decreases es.len(),
{
    if es.len() > 0 {
        let pre = es.drop_last();
        lemma_entities_after(pre);
        let ids = es.map_values(|e: EntityView| e.id);
        assert forall|k: u64| entities_after(es).contains_key(k) <==> exists|i: int| 0 <= i < es.len() && (#[trigger] es[i]).id == k by {
            if entities_after(es).contains_key(k) && k != es.last().id {
                assert(entities_after(pre).contains_key(k));
                assert(exists|i: int| 0 <= i < pre.len() && (#[trigger] pre[i]).id == k);
                let i = choose|i: int| 0 <= i < pre.len() && (#[trigger] pre[i]).id == k;
                assert(es[i] == pre[i]);
                assert(es[i].id == k);
            }
            if entities_after(es).contains_key(k) && k == es.last().id {
                assert(es[es.len() - 1].id == k);
            }
            if exists|i: int| 0 <= i < es.len() && (#[trigger] es[i]).id == k {
                let i = choose|i: int| 0 <= i < es.len() && (#[trigger] es[i]).id == k;
                if i < pre.len() {
                    assert(pre[i] == es[i]);
                    assert(entities_after(pre).contains_key(k));
                }
                assert(entities_after(es).contains_key(k));
            }
        }
        assert forall|i: int| last_of(ids, i) implies entities_after(es)[(#[trigger] es[i]).id] == es[i] by {
            if i < pre.len() {
                let pids = pre.map_values(|e: EntityView| e.id);
                assert(ids[es.len() - 1] != ids[i]);
                assert forall|m: int| i < m < pids.len() implies pids[m] != pids[i] by {
                    assert(pids[m] == ids[m]);
                }
                assert(last_of(pids, i));
                assert(pre[i] == es[i]);
            }
        }
    }
}

/// Storing edges in turn keeps exactly their IDs, each with the last edge
/// stored under it.
pub proof fn lemma_edges_after(es: Seq<EdgeView>)
    ensures
        forall|k: u64| edges_after(es).contains_key(k) <==> exists|i: int| 0 <= i < es.len() && (#[trigger] es[i]).id == k,
        forall|i: int| last_of(es.map_values(|e: EdgeView| e.id), i) ==> edges_after(es)[(#[trigger] es[i]).id] == es[i],
    decreases es.len(),
{
    if es.len() > 0 {
        let pre = es.drop_last();
        lemma_edges_after(pre);
        let ids = es.map_values(|e: EdgeView| e.id);
        assert forall|k: u64| edges_after(es).contains_key(k) <==> exists|i: int| 0 <= i < es.len() && (#[trigger] es[i]).id == k by {
            if edges_after(es).contains_key(k) && k != es.last().id {
                assert(edges_after(pre).contains_key(k));
                assert(exists|i: int| 0 <= i < pre.len() && (#[trigger] pre[i]).id == k);
                let i = choose|i: int| 0 <= i < pre.len() && (#[trigger] pre[i]).id == k;
                assert(es[i] == pre[i]);
                assert(es[i].id == k);
            }
            if edges_after(es).contains_key(k) && k == es.last().id {
                assert(es[es.len() - 1].id == k);
            }
            if exists|i: int| 0 <= i < es.len() && (#[trigger] es[i]).id == k {
                let i = choose|i: int| 0 <= i < es.len() && (#[trigger] es[i]).id == k;
                if i < pre.len() {
                    assert(pre[i] == es[i]);
                    assert(edges_after(pre).contains_key(k));
                }
                assert(edges_after(es).contains_key(k));
            }
        }
        assert forall|i: int| last_of(ids, i) implies edges_after(es)[(#[trigger] es[i]).id] == es[i] by {
            if i < pre.len() {
                let pids = pre.map_values(|e: EdgeView| e.id);
                assert(ids[es.len() - 1] != ids[i]);
                assert forall|m: int| i < m < pids.len() implies pids[m] != pids[i] by {
                    assert(pids[m] == ids[m]);
                }
                assert(last_of(pids, i));
                assert(pre[i] == es[i]);
            }
        }
    }
}

/// The IDs of saved entities.
pub open spec fn entity_ids(v: Seq<SerializedEntity>) -> Seq<u64> {
    v.map_values(|e: SerializedEntity| e.id)
}

/// The IDs of saved edges.
pub open spec fn edge_ids(v: Seq<SerializedEdge>) -> Seq<u64> {
    v.map_values(|e: SerializedEdge| e.id)
}

/// A graph rebuilt from a backup's contents: each entity (new, never read)
/// and then each edge (new) is put back under its own ID, in the order
/// saved, so an ID saved twice holds its last entity or edge. The IDs must
/// leave room for one more.
pub fn restore_from_data(data: &BackupData) -> (r: Graph)
    requires
        forall|i: int| 0 <= i < data.entities@.len() ==> (#[trigger] data.entities@[i]).id < u64::MAX,
        forall|i: int| 0 <= i < data.edges@.len() ==> (#[trigger] data.edges@[i]).id < u64::MAX,
    ensures
        r.wf(),
        forall|k: u64| r.entities_spec().contains_key(k) <==> entity_ids(data.entities@).contains(k),
        forall|i: int|
            last_of(entity_ids(data.entities@), i) ==> {
                let e = #[trigger] r.entities_spec()[data.entities@[i].id];
                &&& e.entity_type == data.entities@[i].entity_type@
                &&& e.properties == data.entities@[i].properties.entries_spec()
                &&& e.access_count == 0
            },
        forall|k: u64| r.edges_spec().contains_key(k) <==> edge_ids(data.edges@).contains(k),
        forall|i: int|
            last_of(edge_ids(data.edges@), i) ==> {
                let e = #[trigger] r.edges_spec()[data.edges@[i].id];
                &&& e.source == data.edges@[i].from_id
                &&& e.target == data.edges@[i].to_id
                &&& e.edge_type == data.edges@[i].edge_type@
                &&& e.properties == data.edges@[i].properties.entries_spec()
            },
{
    let mut entities: Vec<Entity> = Vec::new();
    let mut i: usize = 0;
    while i < data.entities.len()
        invariant
            i <= data.entities@.len(),
            entities@.len() == i,
            forall|j: int| 0 <= j < data.entities@.len() ==> (#[trigger] data.entities@[j]).id < u64::MAX,
            forall|j: int|
                0 <= j < i ==> (#[trigger] entities@[j]).id.0 == data.entities@[j].id && entities@[j].entity_type@
                    == data.entities@[j].entity_type@ && entities@[j].properties.entries_spec()
                    == data.entities@[j].properties.entries_spec() && entities@[j].access_count == 0,
        decreases data.entities.len() - i,
    {
        entities.push(data.entities[i].to_entity());
        i = i + 1;
    }
    let mut edges: Vec<Edge> = Vec::new();
    let mut k: usize = 0;
    while k < data.edges.len()
        invariant
            k <= data.edges@.len(),
            edges@.len() == k,
            forall|j: int| 0 <= j < data.edges@.len() ==> (#[trigger] data.edges@[j]).id < u64::MAX,
            forall|j: int|
                0 <= j < k ==> (#[trigger] edges@[j]).id.0 == data.edges@[j].id && edges@[j].source.0
                    == data.edges@[j].from_id && edges@[j].target.0 == data.edges@[j].to_id && edges@[j].edge_type@
                    == data.edges@[j].edge_type@ && edges@[j].properties.entries_spec()
                    == data.edges@[j].properties.entries_spec(),
        decreases data.edges.len() - k,
    {
        edges.push(data.edges[k].to_edge());
        k = k + 1;
    }
    let g = restore_graph(&entities, &edges);
    proof {
        let ev = entities@.map_values(|e: Entity| e@);
        let dv = edges@.map_values(|e: Edge| e@);
        lemma_entities_after(ev);
        lemma_edges_after(dv);
        let eids = entity_ids(data.entities@);
        let dids = edge_ids(data.edges@);
        assert(ev.map_values(|e: EntityView| e.id) =~= eids);
        assert(dv.map_values(|e: EdgeView| e.id) =~= dids);
        assert forall|k: u64| g.entities_spec().contains_key(k) <==> eids.contains(k) by {
            if eids.contains(k) {
                let i = choose|i: int| 0 <= i < eids.len() && eids[i] == k;
                assert(ev[i].id == k);
            }
            if g.entities_spec().contains_key(k) {
                let i = choose|i: int| 0 <= i < ev.len() && (#[trigger] ev[i]).id == k;
                assert(eids[i] == k);
            }
        }
        assert forall|i: int| last_of(eids, i) implies {
            let e = #[trigger] g.entities_spec()[data.entities@[i].id];
            &&& e.entity_type == data.entities@[i].entity_type@
            &&& e.properties == data.entities@[i].properties.entries_spec()
            &&& e.access_count == 0
        } by {
            assert(ev[i].id == data.entities@[i].id);
        }
        assert forall|k: u64| g.edges_spec().contains_key(k) <==> dids.contains(k) by {
            if dids.contains(k) {
                let i = choose|i: int| 0 <= i < dids.len() && dids[i] == k;
                assert(dv[i].id == k);
            }
            if g.edges_spec().contains_key(k) {
                let i = choose|i: int| 0 <= i < dv.len() && (#[trigger] dv[i]).id == k;
                assert(dids[i] == k);
            }
        }
        assert forall|i: int| last_of(dids, i) implies {
            let e = #[trigger] g.edges_spec()[data.edges@[i].id];
            &&& e.source == data.edges@[i].from_id
            &&& e.target == data.edges@[i].to_id
            &&& e.edge_type == data.edges@[i].edge_type@
            &&& e.properties == data.edges@[i].properties.entries_spec()
        } by {
            assert(dv[i].id == data.edges@[i].id);
        }
    }
    g
}

// ---------------------------------------------------------------------
// Backup files
// ---------------------------------------------------------------------

/// The gzip encoding of bytes made by flate2's `GzEncoder` at the default
/// level.
pub uninterp spec fn gzip_encoding(data: Seq<u8>) -> Seq<u8>;

/// What flate2's `GzDecoder` reads out of bytes.
pub uninterp spec fn gzip_decoding(data: Seq<u8>) -> Seq<u8>;

/// Compress with flate2's `GzEncoder` (default level) into memory.
/// Claimed: it succeeds, since the encoder writes into a `Vec`, whose
/// writes do not fail, and drives its deflate stream only as that stream
/// allows; and the result is the gzip encoding of the data.
#[verifier::external_body]
fn compress_data(data: &[u8]) -> (r: Result<Vec<u8>, String>)
    ensures
        r is Ok,
        r matches Ok(v) ==> v@ == gzip_encoding(data@),
{
    let mut encoder = GzEncoder::new(Vec::new(), Compression::default());
    encoder.write_all(data).map_err(|e| format!("Compression error: {}", e))?;
    encoder.finish().map_err(|e| format!("Compression error: {}", e))
}

/// Decompress with flate2's `GzDecoder`: the gzip encoding of some bytes
/// decodes to those bytes; other input decodes to what the decoder reads,
/// or fails with its message.
#[verifier::external_body]
fn decompress_data(data: &[u8]) -> (r: Result<Vec<u8>, String>)
    ensures
        r matches Ok(v) ==> v@ == gzip_decoding(data@) && forall|x: Seq<u8>| #[trigger] gzip_encoding(x) == data@ ==> v@ == x,
        r is Ok || forall|x: Seq<u8>| #[trigger] gzip_encoding(x) != data@,
{
    let mut decoder = GzDecoder::new(data);
    let mut result = Vec::new();
    decoder.read_to_end(&mut result).map_err(|e| format!("Decompression error: {}", e))?;
    Ok(result)
}

impl BackupManager {
    /// What a full backup writes for serialized data: the data's checksum
    /// and the file's bytes, the data's UTF-8 bytes gzip-compressed where
    /// the configuration says so, else as they are.
    pub fn backup_file_bytes(&self, serialized: &str) -> (r: Result<(String, Vec<u8>), String>)
        ensures
            r matches Ok((c, bytes)) ==> c@ == sha256_hex(serialized@) && bytes@ == if self.config_spec().compress {
                gzip_encoding(utf8_encoding(serialized@))
            } else {
                utf8_encoding(serialized@)
            },
            r is Ok,
    {
        let checksum = calculate_checksum(serialized);
        let raw = crate::text::utf8_bytes(String::from_str(serialized));
        if self.config.compress {
            match compress_data(raw.as_slice()) {
                Ok(c) => Ok((checksum, c)),
                Err(e) => Err(e),
            }
        } else {
            Ok((checksum, raw))
        }
    }

    /// The serialized data in a backup file's bytes: decompressed where the
    /// backup was compressed, read as UTF-8, and checked against the
    /// recorded checksum where the configuration verifies.
    pub fn open_backup_bytes(&self, buffer: Vec<u8>, metadata: &BackupMetadata) -> (r: Result<String, String>)
        ensures
            r matches Ok(s) ==> {
                &&& (if metadata.compressed {
                    utf8_encoding(s@) == gzip_decoding(buffer@)
                } else {
                    utf8_encoding(s@) == buffer@
                })
                &&& self.config_spec().verify ==> sha256_hex(s@) == metadata.checksum@
            },
            forall|t: Seq<char>|
                #![trigger utf8_encoding(t)]
                (if metadata.compressed {
                    buffer@ == gzip_encoding(utf8_encoding(t))
                } else {
                    buffer@ == utf8_encoding(t)
                }) && (self.config_spec().verify ==> sha256_hex(t) == metadata.checksum@) ==> (r matches Ok(s)
                    && s@ == t),
    {
        let ghost raw = buffer@;
        let decoded: Result<Vec<u8>, String> = if metadata.compressed {
            decompress_data(buffer.as_slice())
        } else {
            Ok(buffer)
        };
        let text = match decoded {
            Ok(d) => match utf8_text(d) {
                Ok(t) => Ok(t),
                Err(e) => Err(concat2("Invalid UTF-8 in backup: ", e.as_str())),
            },
            Err(e) => Err(e),
        };
        let r = match text {
            Ok(s) => match self.check_restore_data(s.as_str(), metadata) {
                Ok(()) => Ok(s),
                Err(e) => Err(e),
            },
            Err(e) => Err(e),
        };
        proof {
            assert forall|t: Seq<char>|
                (if metadata.compressed {
                    raw == gzip_encoding(#[trigger] utf8_encoding(t))
                } else {
                    raw == utf8_encoding(t)
                }) && (self.config_spec().verify ==> sha256_hex(t) == metadata.checksum@) implies (r matches Ok(s)
                    && s@ == t) by {
                let bytes = utf8_encoding(t);
                if metadata.compressed {
                    assert(gzip_encoding(bytes) == raw);
                }
                assert(decoded matches Ok(d) && d@ == bytes);
                assert(text is Ok);
            }
        }
        r
    }
}

/// Where a backup goes among backups listed newest first: after every
/// backup at least as new.
pub open spec fn newest_slot(s: Seq<BackupMetadata>, t: u64, k: int) -> int
    decreases s.len() - k,
{
    if k < 0 || k >= s.len() {
        s.len() as int
    } else if s[k].timestamp < t {
        k
    } else {
        newest_slot(s, t, k + 1)
    }
}

/// The backups listed newest first; backups of the same time keep their
/// order (a stable sort on the time stamp, descending).
pub open spec fn newest_first(s: Seq<BackupMetadata>) -> Seq<BackupMetadata>
    decreases s.len(),
{
    if s.len() == 0 {
        Seq::empty()
    } else {
        let r = newest_first(s.drop_last());
        r.insert(newest_slot(r, s.last().timestamp, 0), s.last())
    }
}

proof fn lemma_newest_slot(s: Seq<BackupMetadata>, t: u64, k: int)
    requires
        0 <= k <= s.len(),
    ensures
        k <= newest_slot(s, t, k) <= s.len(),
    decreases s.len() - k,
{
    if k < s.len() && s[k].timestamp >= t {
        lemma_newest_slot(s, t, k + 1);
    }
}

/// The backups listed newest first (see `newest_first`).
pub fn sort_newest_first(backups: Vec<BackupMetadata>) -> (r: Vec<BackupMetadata>)
    ensures
        r@ == newest_first(backups@),
{
    let ghost s = backups@;
    let mut input = backups;
    let mut out: Vec<BackupMetadata> = Vec::new();
    let ghost mut i: int = 0;
    assert(s.take(0) =~= Seq::<BackupMetadata>::empty());
    assert(s.skip(0) =~= s);
    while input.len() > 0
        invariant
            0 <= i <= s.len(),
            input@ == s.skip(i),
            out@ == newest_first(s.take(i)),
        decreases input.len(),
    {
        let b = input.remove(0);
        proof {
            assert(s.skip(i)[0] == s[i]);
            assert(s.skip(i).drop_first() =~= s.skip(i + 1));
            assert(s.take(i + 1).drop_last() =~= s.take(i));
            assert(s.take(i + 1).last() == s[i]);
        }
        let t = b.timestamp;
        let mut k: usize = 0;
        proof {
            lemma_newest_slot(out@, t, 0);
        }
        while k < out.len() && out[k].timestamp >= t
            invariant
                k <= out@.len(),
                newest_slot(out@, t, 0) == newest_slot(out@, t, k as int),
            decreases out.len() - k,
        {
            k = k + 1;
        }
        out.insert(k, b);
        proof {
            i = i + 1;
        }
    }
    assert(s.take(i) =~= s);
    out
}

/// A listing newest first holds the same backups, ordered by time,
/// newest first.
pub proof fn law_newest_first_is_ordered(s: Seq<BackupMetadata>)
    ensures
        newest_first(s).to_multiset() == s.to_multiset(),
        newest_first(s).len() == s.len(),
        forall|a: int, b: int| 0 <= a < b < newest_first(s).len() ==> newest_first(s)[a].timestamp
            >= newest_first(s)[b].timestamp,
    decreases s.len(),
{
    if s.len() > 0 {
        law_newest_first_is_ordered(s.drop_last());
        let r = newest_first(s.drop_last());
        let t = s.last().timestamp;
        let p = newest_slot(r, t, 0);
        lemma_newest_slot(r, t, 0);
        lemma_slot_bounds(r, t, 0);
        let r2 = r.insert(p, s.last());
        vstd::seq_lib::to_multiset_insert(r, p, s.last());
        vstd::seq_lib::to_multiset_build(s.drop_last(), s.last());
        assert(s.drop_last().push(s.last()) =~= s);
        assert forall|a: int, b: int| 0 <= a < b < r2.len() implies r2[a].timestamp >= r2[b].timestamp by {
            if b < p {
            } else if a > p {
                assert(r2[a] == r[a - 1] && r2[b] == r[b - 1]);
            } else if a == p {
                assert(r2[b] == r[b - 1]);
            } else if b == p {
                assert(r2[a] == r[a]);
            } else {
                assert(r2[a] == r[a] && r2[b] == r[b - 1]);
            }
        }
    } else {
        assert(newest_first(s) =~= s);
    }
}

/// Before the slot every backup is at least as new; from it on, in an
/// ordered listing, every backup is older.
proof fn lemma_slot_bounds(s: Seq<BackupMetadata>, t: u64, k: int)
    requires
        0 <= k <= s.len(),
        forall|a: int, b: int| 0 <= a < b < s.len() ==> s[a].timestamp >= s[b].timestamp,
        forall|j: int| 0 <= j < k ==> s[j].timestamp >= t,
    ensures
        forall|j: int| 0 <= j < newest_slot(s, t, k) ==> s[j].timestamp >= t,
        forall|j: int| newest_slot(s, t, k) <= j < s.len() ==> s[j].timestamp < t,
    decreases s.len() - k,
{
    if k < s.len() {
        if s[k].timestamp >= t {
            lemma_slot_bounds(s, t, k + 1);
        } else {
            assert forall|j: int| k <= j < s.len() implies s[j].timestamp < t by {
                if j > k {
                    assert(s[k].timestamp >= s[j].timestamp);
                }
            }
        }
    }
}

} // verus!
