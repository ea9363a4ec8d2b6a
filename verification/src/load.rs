use vstd::prelude::*;
use crate::doc::{
    part_ids, parts_at_or_above, parts_below, DocModel, StreamDoc, StreamError,
};
use crate::name::{has_json_ext, stem_of};
use crate::store::{has_id, has_name, remap_ref, EntryModel, StreamStore};

verus! {

/// The document a load derives from a parsed file: the leaf name comes from
/// the file stem, every agent and channel is a copy under fresh consecutive
/// identifiers from `base`, and channel endpoints follow the copied agents.
pub open spec fn loaded_doc(d: DocModel, name: Seq<char>, base: u64) -> DocModel {
    DocModel {
        name,
        agents: Seq::new(
            d.agents.len(),
            |k: int| crate::doc::AgentSpec { id: (base + k) as u64 },
        ),
        channels: Seq::new(
            d.channels.len(),
            |k: int|
                crate::doc::ChannelSpec {
                    id: (base + d.agents.len() + k) as u64,
                    source: remap_ref(d.agents, base, d.channels[k].source),
                    target: remap_ref(d.agents, base, d.channels[k].target),
                },
        ),
        run_on_start: d.run_on_start,
    }
}

/// Whether a file, named `file_name` and parsed to `parsed`, yields a
/// document at all: the extension must match, the content must have parsed,
/// and the trimmed stem must be non-empty.
pub open spec fn load_accepts(file_name: Seq<char>, parsed: Option<DocModel>) -> bool {
    has_json_ext(file_name) && parsed is Some && stem_of(file_name).len() > 0
}

/// The model of an optional parsed document.
pub open spec fn parsed_model(parsed: Option<StreamDoc>) -> Option<DocModel> {
    match parsed {
        Some(d) => Some(d@),
        None => None,
    }
}

/// How many internal identifiers a load consumes.
pub open spec fn load_width(parsed: Option<DocModel>) -> int {
    match parsed {
        Some(d) => d.agents.len() + d.channels.len() as int,
        None => 0,
    }
}

impl StreamStore {
    /// Derive a document from one file, handed in as its bare file name and
    /// its parsed content (`None` when the content did not parse). The file
    /// name, not the content, gives the document's name: its stem, trimmed.
    /// All internal identifiers are remapped to fresh ones so that the
    /// result collides with no document this registry has seen. The registry
    /// entries themselves are untouched.
    pub fn read_agent_stream(&mut self, file_name: &str, parsed: Option<StreamDoc>) -> (r: Result<
        StreamDoc,
        StreamError,
    >)
        requires
            old(self).wf(),
            old(self).spec_next_part_id() + load_width(parsed_model(parsed)) <= u64::MAX,
        ensures
            final(self).wf(),
            final(self).streams() == old(self).streams(),
            final(self).spec_next_id() == old(self).spec_next_id(),
            match r {
                Ok(d) => {
                    &&& load_accepts(file_name@, parsed_model(parsed))
                    &&& d@ == loaded_doc(
                        parsed.unwrap()@,
                        stem_of(file_name@),
                        old(self).spec_next_part_id(),
                    )
                    &&& final(self).spec_next_part_id() == old(self).spec_next_part_id()
                        + load_width(parsed_model(parsed))
                },
                Err(e) => {
                    &&& !load_accepts(file_name@, parsed_model(parsed))
                    &&& *final(self) == *old(self)
                    &&& (e == StreamError::InvalidFormat <==> !has_json_ext(file_name@) || parsed
                        is None)
                    &&& (e == StreamError::InvalidName <==> has_json_ext(file_name@) && parsed
                        is Some && stem_of(file_name@).len() == 0)
                },
            },
    {
        let stem = match crate::name::file_stem(file_name) {
            Some(st) => st,
            None => {
                return Err(StreamError::InvalidFormat);
            },
        };
        let mut doc = match parsed {
            Some(d) => d,
            None => {
                return Err(StreamError::InvalidFormat);
            },
        };
        if stem.as_str().is_empty() {
            return Err(StreamError::InvalidName);
        }
        let (agents, channels) = self.copy_sub_stream(&doc.agents, &doc.channels);
        doc.agents = agents;
        doc.channels = channels;
        doc.name = stem;
        proof {
            assert(doc@.agents =~= loaded_doc(
                parsed.unwrap()@,
                stem_of(file_name@),
                old(self).spec_next_part_id(),
            ).agents);
            assert(doc@.channels =~= loaded_doc(
                parsed.unwrap()@,
                stem_of(file_name@),
                old(self).spec_next_part_id(),
            ).channels);
        }
        Ok(doc)
    }

    /// Import an externally authored file as a brand-new document. The
    /// document is loaded as in `read_agent_stream`, its auto-launch flag is
    /// cleared so an imported document never runs before review, it is
    /// registered under a name no current document bears (the stem, or the
    /// stem with a numeric suffix), and the fresh registry id is returned.
    /// Registration itself cannot fail: the chosen name is guaranteed free.
    pub fn import_agent_stream(&mut self, file_name: &str, parsed: Option<StreamDoc>) -> (r:
        Result<u64, StreamError>)
        requires
            old(self).wf(),
            old(self).spec_next_part_id() + load_width(parsed_model(parsed)) <= u64::MAX,
            old(self).spec_next_id() < u64::MAX,
        ensures
            final(self).wf(),
            final(self).spec_next_part_id() >= old(self).spec_next_part_id(),
            match r {
                Ok(id) => {
                    let s = old(self).streams();
                    let st = stem_of(file_name@);
                    let e = final(self).streams().last();
                    &&& load_accepts(file_name@, parsed_model(parsed))
                    &&& final(self).streams() == s.push(e)
                    &&& e.id == id && !has_id(s, id)
                    &&& e.doc == DocModel {
                        name: e.doc.name,
                        run_on_start: false,
                        ..loaded_doc(parsed.unwrap()@, st, old(self).spec_next_part_id())
                    }
                    &&& !has_name(s, e.doc.name)
                    &&& (!has_name(s, st) ==> e.doc.name == st)
                    &&& (has_name(s, st) ==> exists|k: nat|
                        2 <= k && e.doc.name == st + crate::digits::dec_digits(k))
                    &&& parts_at_or_above(e.doc, old(self).spec_next_part_id())
                    &&& parts_below(e.doc, final(self).spec_next_part_id())
                },
                Err(e) => {
                    &&& !load_accepts(file_name@, parsed_model(parsed))
                    &&& *final(self) == *old(self)
                    &&& (e == StreamError::InvalidFormat <==> !has_json_ext(file_name@) || parsed
                        is None)
                    &&& (e == StreamError::InvalidName <==> has_json_ext(file_name@) && parsed
                        is Some && stem_of(file_name@).len() == 0)
                },
            },
    {
        let ghost base = self.spec_next_part_id();
        let mut doc = match self.read_agent_stream(file_name, parsed) {
            Ok(d) => d,
            Err(e) => {
                return Err(e);
            },
        };
        doc.run_on_start = false;
        let name = self.unique_stream_name(doc.name.as_str());
        doc.name = name;
        let ghost d_model = doc@;
        let ghost s = self.streams();
        match self.add_agent_stream(doc) {
            Ok(id) => {
                proof {
                    assert(self.streams().last() == EntryModel { id, doc: d_model });
                    assert(parts_at_or_above(d_model, base)) by {
                        assert forall|i: int|
                            0 <= i < part_ids(d_model).len() implies #[trigger] part_ids(
                            d_model,
                        )[i] >= base by {
                            let n = d_model.agents.len() as int;
                            if i < n {
                                assert(part_ids(d_model)[i] == d_model.agents[i].id);
                            } else {
                                assert(part_ids(d_model)[i] == d_model.channels[i - n].id);
                            }
                        }
                    }
                    assert(parts_below(d_model, self.spec_next_part_id())) by {
                        assert forall|i: int|
                            0 <= i < part_ids(d_model).len() implies #[trigger] part_ids(
                            d_model,
                        )[i] < self.spec_next_part_id() by {
                            let n = d_model.agents.len() as int;
                            if i < n {
                                assert(part_ids(d_model)[i] == d_model.agents[i].id);
                            } else {
                                assert(part_ids(d_model)[i] == d_model.channels[i - n].id);
                            }
                        }
                    }
                }
                Ok(id)
            },
            Err(_e) => {
                // Unreachable: the chosen name is free by construction.
                proof {
                    assert(!has_name(s, d_model.name));
                    assert(false);
                }
                Err(StreamError::NameCollision)
            },
        }
    }
}

/// Two documents imported one after the other are fully isolated: the
/// registry invariant gives them distinct ids and distinct names, and their
/// internal identifier ranges are separated by the registry's counter, so no
/// agent or channel identifier is shared.
pub proof fn lemma_import_isolation(st: &StreamStore, a: int, b: int, bound: u64)
    requires
        st.wf(),
        0 <= a < st.streams().len(),
        0 <= b < st.streams().len(),
        a != b,
        parts_below(st.streams()[a].doc, bound),
        parts_at_or_above(st.streams()[b].doc, bound),
    ensures
        st.streams()[a].id != st.streams()[b].id,
        st.streams()[a].doc.name != st.streams()[b].doc.name,
        forall|i: int, j: int|
            0 <= i < part_ids(st.streams()[a].doc).len() && 0 <= j < part_ids(
                st.streams()[b].doc,
            ).len() ==> #[trigger] part_ids(st.streams()[a].doc)[i] != #[trigger] part_ids(
                st.streams()[b].doc,
            )[j],
{
    let s = st.streams();
    st.lemma_wf_unique();
    assert(s[a].id != s[b].id);
    assert(s[a].doc.name != s[b].doc.name);
}

} // verus!
