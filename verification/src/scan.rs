use vstd::prelude::*;
use crate::doc::{parts_below, DocModel, StreamDoc};
use crate::load::{load_accepts, load_width, loaded_doc, parsed_model};
use crate::name::{join_name, join_segs, stem_of};
use crate::store::{has_name, EntryModel, StreamStore};

verus! {

// ---------------------------------------------------------------------------
// The directory scan. The embedding application walks the streams root once
// at startup and hands in, per file found, the directory components of its
// location relative to the root, its bare file name, and its parsed content.
// The scan registers every file that yields a well-formed document and skips
// the rest: one bad file never blocks the remaining ones.
// ---------------------------------------------------------------------------

/// One file found under the streams root.
#[derive(Debug)]
pub struct ScanFile {
    pub dir_segments: Vec<String>,
    pub file_name: String,
    pub parsed: Option<StreamDoc>,
}

/// The mathematical content of a scanned file.
pub ghost struct ScanFileModel {
    pub dirs: Seq<Seq<char>>,
    pub file_name: Seq<char>,
    pub parsed: Option<DocModel>,
}

impl View for ScanFile {
    type V = ScanFileModel;

    open spec fn view(&self) -> ScanFileModel {
        ScanFileModel {
            dirs: self.dir_segments.deep_view(),
            file_name: self.file_name@,
            parsed: parsed_model(self.parsed),
        }
    }
}

/// The models of a file listing, in listing order.
pub open spec fn models_of(files: Seq<ScanFile>) -> Seq<ScanFileModel> {
    files.map_values(|f: ScanFile| f@)
}

/// The registry state a scan reads and writes.
pub ghost struct ScanState {
    pub streams: Seq<EntryModel>,
    pub next_id: u64,
    pub next_part_id: u64,
}

/// The logical name a scanned file contributes: its stem, prefixed by the
/// accumulated directory components joined with `/`.
pub open spec fn scanned_name(f: ScanFileModel) -> Seq<char> {
    join_segs(f.dirs.push(stem_of(f.file_name)))
}

/// The effect of one file on the registry: a file that does not load is
/// skipped; a loadable file is remapped onto fresh identifiers and
/// registered, unless its name is already taken, in which case only the
/// identifier counter has moved.
pub open spec fn scan_step(st: ScanState, f: ScanFileModel) -> ScanState {
    if !load_accepts(f.file_name, f.parsed) {
        st
    } else {
        let nm = scanned_name(f);
        let d = loaded_doc(f.parsed.unwrap(), nm, st.next_part_id);
        let next_part = (st.next_part_id + load_width(f.parsed)) as u64;
        if has_name(st.streams, nm) {
            ScanState { streams: st.streams, next_id: st.next_id, next_part_id: next_part }
        } else {
            ScanState {
                streams: st.streams.push(EntryModel { id: st.next_id, doc: d }),
                next_id: (st.next_id + 1) as u64,
                next_part_id: next_part,
            }
        }
    }
}

/// The effect of a whole listing, file by file, in order.
pub open spec fn scan_fold(st: ScanState, fs: Seq<ScanFileModel>) -> ScanState
    decreases fs.len(),
{
    if fs.len() == 0 {
        st
    } else {
        scan_step(scan_fold(st, fs.drop_last()), fs.last())
    }
}

/// One step stays within the machine counters.
pub open spec fn step_fits(st: ScanState, f: ScanFileModel) -> bool {
    !load_accepts(f.file_name, f.parsed) || (st.next_part_id + load_width(f.parsed) <= u64::MAX
        && st.next_id < u64::MAX)
}

/// Every step of the scan stays within the machine counters.
pub open spec fn scan_fits(st: ScanState, fs: Seq<ScanFileModel>) -> bool
    decreases fs.len(),
{
    fs.len() == 0 || (scan_fits(st, fs.drop_last()) && step_fits(
        scan_fold(st, fs.drop_last()),
        fs.last(),
    ))
}

proof fn lemma_scan_fits_at(st: ScanState, fs: Seq<ScanFileModel>, i: int)
    requires
        scan_fits(st, fs),
        0 <= i < fs.len(),
    ensures
        step_fits(scan_fold(st, fs.subrange(0, i)), fs[i]),
    decreases fs.len(),
{
    if i == fs.len() - 1 {
        assert(fs.drop_last() =~= fs.subrange(0, i));
    } else {
        assert(fs.drop_last().subrange(0, i) =~= fs.subrange(0, i));
        assert(fs.drop_last()[i] == fs[i]);
        lemma_scan_fits_at(st, fs.drop_last(), i);
    }
}

/// Scanning a listing into two registries in the same state registers the
/// same entries: the scan outcome is a function of the initial registry
/// state and the listing alone, so a second scan of an unchanged tree into a
/// fresh registry reproduces the same set of named documents.
pub proof fn lemma_scan_deterministic(a: ScanState, b: ScanState, fs: Seq<ScanFileModel>)
    requires
        a == b,
    ensures
        scan_fold(a, fs).streams == scan_fold(b, fs).streams,
{
}

impl StreamStore {
    /// The scan-relevant summary of this registry.
    pub open spec fn scan_state(&self) -> ScanState {
        ScanState {
            streams: self.streams(),
            next_id: self.spec_next_id(),
            next_part_id: self.spec_next_part_id(),
        }
    }

    /// Rebuild the registry from a directory walk. Every file that carries
    /// the fixed extension, parsed, and has a non-empty stem is loaded under
    /// fresh identifiers and registered under its directory-derived name;
    /// every other file, and every name collision, is skipped without
    /// aborting the scan.
    pub fn read_agent_streams_dir(&mut self, files: &Vec<ScanFile>)
        requires
            old(self).wf(),
            scan_fits(old(self).scan_state(), models_of(files@)),
        ensures
            final(self).wf(),
            final(self).scan_state() == scan_fold(old(self).scan_state(), models_of(files@)),
    {
        let ghost fs = models_of(files@);
        let ghost init = self.scan_state();
        let mut i: usize = 0;
        proof {
            assert(fs.subrange(0, 0) =~= Seq::<ScanFileModel>::empty());
        }
        while i < files.len()
            invariant
                self.wf(),
                fs == models_of(files@),
                fs.len() == files@.len(),
                scan_fits(init, fs),
                0 <= i <= fs.len(),
                self.scan_state() == scan_fold(init, fs.subrange(0, i as int)),
            decreases fs.len() - i,
        {
            let ghost pre = self.scan_state();
            proof {
                lemma_scan_fits_at(init, fs, i as int);
                assert(fs.subrange(0, i + 1 as int).drop_last() =~= fs.subrange(0, i as int));
                assert(fs.subrange(0, i + 1 as int).last() == fs[i as int]);
                assert(fs[i as int] == files@[i as int]@);
            }
            let f = &files[i];
            if let Some(stem) = crate::name::file_stem(f.file_name.as_str()) {
                if !stem.as_str().is_empty() {
                    if let Some(p) = &f.parsed {
                        let ghost base = pre.next_part_id;
                        let (agents, channels) = self.copy_sub_stream(&p.agents, &p.channels);
                        let name = if f.dir_segments.len() == 0 {
                            stem
                        } else {
                            let mut nm = join_name(&f.dir_segments);
                            proof {
                                reveal_strlit("/");
                            }
                            nm.append("/");
                            nm.append(stem.as_str());
                            nm
                        };
                        proof {
                            let m = fs[i as int];
                            let segs = m.dirs.push(stem_of(m.file_name));
                            if m.dirs.len() == 0 {
                                assert(join_segs(segs) == segs[0]);
                            } else {
                                assert(segs.drop_last() =~= m.dirs);
                                assert(join_segs(segs) == join_segs(m.dirs) + seq!['/']
                                    + stem_of(m.file_name));
                            }
                            assert(name@ == scanned_name(m));
                        }
                        let doc = StreamDoc {
                            name,
                            agents,
                            channels,
                            run_on_start: p.run_on_start,
                        };
                        proof {
                            let m = fs[i as int];
                            let d = loaded_doc(p@, scanned_name(m), base);
                            assert(doc@.agents =~= d.agents);
                            assert(doc@.channels =~= d.channels);
                            assert(doc@ == d);
                            assert(parts_below(doc@, u64::MAX)) by {
                                assert forall|t: int|
                                    0 <= t < crate::doc::part_ids(doc@).len()
                                        implies #[trigger] crate::doc::part_ids(doc@)[t]
                                    < u64::MAX by {
                                    let n = doc@.agents.len() as int;
                                    if t < n {
                                        assert(crate::doc::part_ids(doc@)[t]
                                            == doc@.agents[t].id);
                                    } else {
                                        assert(crate::doc::part_ids(doc@)[t] == doc@.channels[t
                                            - n].id);
                                    }
                                }
                            }
                            assert(parts_below(doc@, self.spec_next_part_id())) by {
                                assert forall|t: int|
                                    0 <= t < crate::doc::part_ids(doc@).len()
                                        implies #[trigger] crate::doc::part_ids(doc@)[t]
                                    < self.spec_next_part_id() by {
                                    let n = doc@.agents.len() as int;
                                    if t < n {
                                        assert(crate::doc::part_ids(doc@)[t]
                                            == doc@.agents[t].id);
                                    } else {
                                        assert(crate::doc::part_ids(doc@)[t] == doc@.channels[t
                                            - n].id);
                                    }
                                }
                            }
                        }
                        match self.add_agent_stream(doc) {
                            Ok(_id) => {},
                            Err(_e) => {},
                        }
                        proof {
                            assert(self.scan_state() == scan_step(pre, fs[i as int]));
                        }
                    }
                }
            }
            proof {
                assert(self.scan_state() == scan_step(pre, fs[i as int]));
                assert(self.scan_state() == scan_fold(init, fs.subrange(0, i + 1 as int)));
            }
            i += 1;
        }
        proof {
            assert(fs.subrange(0, fs.len() as int) =~= fs);
        }
    }
}

} // verus!
