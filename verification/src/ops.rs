use vstd::prelude::*;
use crate::doc::{DocModel, StreamDoc, StreamError};
use crate::name::{
    agent_stream_path, is_valid_name, path_of_name, split_name, split_segs, valid_name,
};
use crate::store::{has_id, has_name, index_of_id, EntryModel, StreamStore};

verus! {

// ---------------------------------------------------------------------------
// The persistence commands. Each decides an operation against the registry
// and reports, as plain values, what the embedding application must then do
// on disk: the registry is always brought up to date first, the file second.
// ---------------------------------------------------------------------------

/// What the application must do after a successful save: create the listed
/// directories under the streams root, then write the serialized document at
/// the relative path.
#[derive(Debug)]
pub struct SavePlan {
    pub dir_segments: Vec<String>,
    pub rel_path: String,
}

/// What the application must do after a successful rename: if a file exists
/// at the old relative path, move it to the new one.
#[derive(Debug)]
pub struct RenamePlan {
    pub old_rel_path: String,
    pub new_rel_path: String,
    pub new_name: String,
}

/// What the application must do after a successful removal: delete the file
/// at the relative path if it still exists. The removed document is handed
/// back for any further cleanup.
#[derive(Debug)]
pub struct RemovePlan {
    pub rel_path: String,
    pub doc: StreamDoc,
}

/// Decide a save of the document: reject a malformed name, else give the
/// parent directories to create and the relative path to write. The registry
/// is not involved: a save persists a document the caller already holds.
pub fn save_agent_stream(doc: &StreamDoc) -> (r: Result<SavePlan, StreamError>)
    ensures
        match r {
            Ok(p) => {
                &&& valid_name(doc@.name)
                &&& p.rel_path@ == path_of_name(doc@.name)
                &&& p.dir_segments.deep_view() == split_segs(doc@.name).drop_last()
            },
            Err(e) => e == StreamError::InvalidName && !valid_name(doc@.name),
        },
{
    if !is_valid_name(doc.name.as_str()) {
        return Err(StreamError::InvalidName);
    }
    let mut segs = split_name(doc.name.as_str());
    let ghost all = segs.deep_view();
    proof {
        crate::name::lemma_split_len(doc.name@);
    }
    let rel_path = agent_stream_path(doc.name.as_str());
    segs.pop();
    proof {
        assert(segs.deep_view() =~~= all.drop_last());
    }
    Ok(SavePlan { dir_segments: segs, rel_path })
}

impl StreamStore {
    /// Rename a registered document and say which file to move. The caller
    /// reports whether a file already exists at the new name's path; if one
    /// does, the rename fails and nothing changes, even if no registered
    /// document holds that name. On success the registry entry is renamed
    /// first; the caller then moves the old file, if it exists, to the new
    /// path.
    pub fn rename_agent_stream(
        &mut self,
        stream_id: u64,
        new_name: &str,
        target_file_exists: bool,
    ) -> (r: Result<RenamePlan, StreamError>)
        requires
            old(self).wf(),
        ensures
            final(self).wf(),
            ({
                let s = old(self).streams();
                let k = index_of_id(s, stream_id);
                match r {
                    Ok(p) => {
                        &&& has_id(s, stream_id) && 0 <= k < s.len() && s[k].id == stream_id
                        &&& valid_name(new_name@)
                        &&& !target_file_exists
                        &&& !(has_name(s, new_name@) && s[k].doc.name != new_name@)
                        &&& final(self).streams() == s.update(
                            k,
                            EntryModel {
                                id: stream_id,
                                doc: DocModel { name: new_name@, ..s[k].doc },
                            },
                        )
                        &&& p.new_name@ == new_name@
                        &&& p.old_rel_path@ == path_of_name(s[k].doc.name)
                        &&& p.new_rel_path@ == path_of_name(new_name@)
                    },
                    Err(e) => {
                        &&& *final(self) == *old(self)
                        &&& (e == StreamError::NotFound <==> !has_id(s, stream_id))
                        &&& (e == StreamError::InvalidName <==> has_id(s, stream_id)
                            && !valid_name(new_name@))
                        &&& (e == StreamError::NameCollision <==> has_id(s, stream_id)
                            && valid_name(new_name@) && (target_file_exists || (has_name(
                            s,
                            new_name@,
                        ) && s[k].doc.name != new_name@)))
                        &&& (e == StreamError::NotFound || e == StreamError::InvalidName || e
                            == StreamError::NameCollision)
                    },
                }
            }),
    {
        let old_rel_path = match self.get_agent_stream(stream_id) {
            Some(d) => agent_stream_path(d.name.as_str()),
            None => {
                return Err(StreamError::NotFound);
            },
        };
        if !is_valid_name(new_name) {
            return Err(StreamError::InvalidName);
        }
        if target_file_exists {
            return Err(StreamError::NameCollision);
        }
        let new_name_s = new_name.to_owned();
        match self.rename_in_registry(stream_id, &new_name_s) {
            Ok(()) => {
                let new_rel_path = agent_stream_path(new_name);
                Ok(RenamePlan { old_rel_path, new_rel_path, new_name: new_name_s })
            },
            Err(e) => Err(e),
        }
    }

    /// Remove a registered document and say which file to delete. The
    /// registry entry goes first; the caller then deletes the file at the
    /// returned path if it still exists, and a file already missing is no
    /// error. Fails, changing nothing, exactly when the id is unknown.
    pub fn remove_agent_stream(&mut self, stream_id: u64) -> (r: Result<RemovePlan, StreamError>)
        requires
            old(self).wf(),
        ensures
            final(self).wf(),
            ({
                let s = old(self).streams();
                let k = index_of_id(s, stream_id);
                match r {
                    Ok(p) => {
                        &&& has_id(s, stream_id) && 0 <= k < s.len() && s[k].id == stream_id
                        &&& final(self).streams() == s.remove(k)
                        &&& p.doc@ == s[k].doc
                        &&& p.rel_path@ == path_of_name(s[k].doc.name)
                    },
                    Err(e) => {
                        &&& e == StreamError::NotFound
                        &&& !has_id(s, stream_id)
                        &&& *final(self) == *old(self)
                    },
                }
            }),
    {
        match self.remove_from_registry(stream_id) {
            Ok(doc) => {
                let rel_path = agent_stream_path(doc.name.as_str());
                Ok(RemovePlan { rel_path, doc })
            },
            Err(e) => Err(e),
        }
    }
}

} // verus!
