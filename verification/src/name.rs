use vstd::prelude::*;

verus! {

// ---------------------------------------------------------------------------
// The logical name of a stream document is a `/`-delimited path of non-empty
// segments. Its file lives at the relative path obtained by appending the
// fixed `.json` extension; the slash-separated segments are the directory
// components, the last one the file stem.
// ---------------------------------------------------------------------------

/// The characters of the fixed file extension, dot included.
pub open spec fn json_ext() -> Seq<char> {
    seq!['.', 'j', 's', 'o', 'n']
}

/// The relative file path of a stream document with the given logical name.
pub open spec fn path_of_name(name: Seq<char>) -> Seq<char> {
    name + json_ext()
}

/// The slash-separated segments of a name. Splitting the empty string gives
/// one empty segment, and every `/` opens a new segment, so the number of
/// segments is always one more than the number of slashes.
pub open spec fn split_segs(n: Seq<char>) -> Seq<Seq<char>>
    decreases n.len(),
{
    if n.len() == 0 {
        seq![Seq::<char>::empty()]
    } else if n.last() == '/' {
        split_segs(n.drop_last()).push(Seq::<char>::empty())
    } else {
        let s = split_segs(n.drop_last());
        s.update(s.len() - 1, s.last().push(n.last()))
    }
}

/// Joining segments with `/` is the inverse of `split_segs`.
pub open spec fn join_segs(segs: Seq<Seq<char>>) -> Seq<char>
    decreases segs.len(),
{
    if segs.len() == 0 {
        Seq::empty()
    } else if segs.len() == 1 {
        segs[0]
    } else {
        join_segs(segs.drop_last()) + seq!['/'] + segs.last()
    }
}

/// A usable logical name: non-empty, and no segment between slashes is empty.
pub open spec fn valid_name(n: Seq<char>) -> bool {
    n.len() > 0 && forall|i: int|
        0 <= i < split_segs(n).len() ==> #[trigger] split_segs(n)[i].len() > 0
}

pub proof fn lemma_split_len(n: Seq<char>)
    ensures
        split_segs(n).len() >= 1,
    decreases n.len(),
{
    if n.len() > 0 {
        lemma_split_len(n.drop_last());
    }
}

/// Extending the last segment by one non-slash character extends the joined
/// name by that character.
proof fn lemma_join_push_char(s: Seq<Seq<char>>, c: char)
    requires
        s.len() >= 1,
    ensures
        join_segs(s.update(s.len() - 1, s.last().push(c))) == join_segs(s).push(c),
{
    let u = s.update(s.len() - 1, s.last().push(c));
    if s.len() == 1 {
        assert(join_segs(u) =~= join_segs(s).push(c));
    } else {
        assert(u.drop_last() =~= s.drop_last());
        assert(u.last() == s.last().push(c));
        assert(join_segs(u) == join_segs(u.drop_last()) + seq!['/'] + u.last());
        assert(join_segs(u) =~= join_segs(s).push(c));
    }
}

/// Opening a new empty segment appends exactly one slash.
proof fn lemma_join_push_empty(s: Seq<Seq<char>>)
    requires
        s.len() >= 1,
    ensures
        join_segs(s.push(Seq::<char>::empty())) == join_segs(s).push('/'),
{
    let u = s.push(Seq::<char>::empty());
    assert(u.drop_last() =~= s);
    assert(join_segs(u) == join_segs(s) + seq!['/'] + Seq::<char>::empty());
    assert(join_segs(u) =~= join_segs(s).push('/'));
}

/// Splitting and rejoining reproduces any name exactly.
pub proof fn lemma_join_split(n: Seq<char>)
    ensures
        join_segs(split_segs(n)) == n,
    decreases n.len(),
{
    lemma_split_len(n);
    if n.len() == 0 {
        assert(join_segs(split_segs(n)) =~= n);
    } else {
        lemma_join_split(n.drop_last());
        lemma_split_len(n.drop_last());
        if n.last() == '/' {
            lemma_join_push_empty(split_segs(n.drop_last()));
            assert(join_segs(split_segs(n)) =~= n);
        } else {
            lemma_join_push_char(split_segs(n.drop_last()), n.last());
            assert(join_segs(split_segs(n)) =~= n);
        }
    }
}

/// The name encoded by a relative document path: drop the extension, then
/// walk the directory components and rejoin them with `/`.
pub open spec fn name_of_path(p: Seq<char>) -> Seq<char> {
    join_segs(split_segs(p.subrange(0, p.len() - json_ext().len())))
}

/// Reconstructing a name from its file path, by stripping the extension and
/// rejoining the directory components with `/`, yields the name again.
pub proof fn lemma_path_round_trip(n: Seq<char>)
    requires
        valid_name(n),
    ensures
        name_of_path(path_of_name(n)) == n,
{
    let p = path_of_name(n);
    assert(p.subrange(0, p.len() - json_ext().len()) =~= n);
    lemma_join_split(n);
}

// ---------------------------------------------------------------------------
// File stems. The file name, not the file content, is authoritative for the
// leaf segment of a scanned or imported document's name: the stem is the file
// name with the extension stripped and surrounding blanks trimmed.
// ---------------------------------------------------------------------------

/// An ASCII blank, as trimmed from the ends of a file stem.
pub open spec fn is_space(c: char) -> bool {
    c == ' ' || c == '\t' || c == '\n' || c == '\r'
}

pub open spec fn trim_left(s: Seq<char>) -> Seq<char>
    decreases s.len(),
{
    if s.len() > 0 && is_space(s.first()) {
        trim_left(s.drop_first())
    } else {
        s
    }
}

pub open spec fn trim_right(s: Seq<char>) -> Seq<char>
    decreases s.len(),
{
    if s.len() > 0 && is_space(s.last()) {
        trim_right(s.drop_last())
    } else {
        s
    }
}

/// The string with leading and trailing blanks removed.
pub open spec fn trim_spec(s: Seq<char>) -> Seq<char> {
    trim_right(trim_left(s))
}

/// Whether a file name carries the fixed extension.
pub open spec fn has_json_ext(f: Seq<char>) -> bool {
    f.len() >= json_ext().len() && f.subrange(f.len() - json_ext().len(), f.len() as int)
        == json_ext()
}

/// The base name a file contributes as the leaf segment: the file name
/// without its extension, trimmed.
pub open spec fn stem_of(f: Seq<char>) -> Seq<char>
    recommends
        has_json_ext(f),
{
    trim_spec(f.subrange(0, f.len() - json_ext().len()))
}

proof fn lemma_trim_left_at(s: Seq<char>, k: int)
    requires
        0 <= k <= s.len(),
        forall|j: int| 0 <= j < k ==> is_space(s[j]),
        k == s.len() || !is_space(s[k]),
    ensures
        trim_left(s) == s.subrange(k, s.len() as int),
    decreases k,
{
    if k == 0 {
        assert(s.subrange(0, s.len() as int) =~= s);
    } else {
        let t = s.drop_first();
        assert(t =~= s.subrange(1, s.len() as int));
        lemma_trim_left_at(t, k - 1);
        assert(t.subrange(k - 1, t.len() as int) =~= s.subrange(k, s.len() as int));
    }
}

proof fn lemma_trim_right_at(s: Seq<char>, k: int)
    requires
        0 <= k <= s.len(),
        forall|j: int| k <= j < s.len() ==> is_space(s[j]),
        k == 0 || !is_space(s[k - 1]),
    ensures
        trim_right(s) == s.subrange(0, k),
    decreases s.len(),
{
    if k == s.len() {
        assert(s.subrange(0, k) =~= s);
    } else {
        let t = s.drop_last();
        assert(is_space(s.last()));
        lemma_trim_right_at(t, k);
        assert(t.subrange(0, k) =~= s.subrange(0, k));
    }
}

/// Whether the character is an ASCII blank.
fn is_space_char(c: char) -> (r: bool)
    ensures
        r == is_space(c),
{
    c == ' ' || c == '\t' || c == '\n' || c == '\r'
}

/// Trim leading and trailing blanks.
pub fn trim_str(s: &str) -> (r: String)
    ensures
        r@ == trim_spec(s@),
{
    let len = s.unicode_len();
    let mut lo: usize = 0;
    while lo < len && is_space_char(s.get_char(lo))
        invariant
            len == s@.len(),
            0 <= lo <= len,
            forall|j: int| 0 <= j < lo ==> is_space(s@[j]),
        decreases len - lo,
    {
        lo += 1;
    }
    if lo == len {
        proof {
            lemma_trim_left_at(s@, lo as int);
            assert(trim_left(s@) =~= Seq::<char>::empty());
        }
        return String::new();
    }
    let mut hi: usize = len;
    while hi > lo && is_space_char(s.get_char(hi - 1))
        invariant
            len == s@.len(),
            lo <= hi <= len,
            forall|j: int| hi <= j < len ==> is_space(s@[j]),
            !is_space(s@[lo as int]),
        decreases hi,
    {
        hi -= 1;
    }
    let r = s.substring_char(lo, hi).to_owned();
    proof {
        lemma_trim_left_at(s@, lo as int);
        let t = s@.subrange(lo as int, len as int);
        lemma_trim_right_at(t, hi - lo as int);
        assert(t.subrange(0, hi - lo as int) =~= s@.subrange(lo as int, hi as int));
    }
    r
}

/// The stem a file contributes, or nothing when the file does not carry the
/// fixed extension.
pub fn file_stem(file_name: &str) -> (r: Option<String>)
    ensures
        match r {
            Some(st) => has_json_ext(file_name@) && st@ == stem_of(file_name@),
            None => !has_json_ext(file_name@),
        },
{
    proof {
        reveal_strlit(".json");
        assert(".json"@ =~= json_ext());
    }
    let len = file_name.unicode_len();
    if len < 5 {
        return None;
    }
    let ok = file_name.get_char(len - 5) == '.' && file_name.get_char(len - 4) == 'j'
        && file_name.get_char(len - 3) == 's' && file_name.get_char(len - 2) == 'o'
        && file_name.get_char(len - 1) == 'n';
    if !ok {
        proof {
            if has_json_ext(file_name@) {
                let f = file_name@;
                assert(f.subrange(f.len() - 5, f.len() as int)[0] == f[f.len() - 5]);
                assert(f.subrange(f.len() - 5, f.len() as int)[1] == f[f.len() - 4]);
                assert(f.subrange(f.len() - 5, f.len() as int)[2] == f[f.len() - 3]);
                assert(f.subrange(f.len() - 5, f.len() as int)[3] == f[f.len() - 2]);
                assert(f.subrange(f.len() - 5, f.len() as int)[4] == f[f.len() - 1]);
            }
        }
        return None;
    }
    proof {
        assert(file_name@.subrange(file_name@.len() - 5, file_name@.len() as int)
            =~= json_ext());
    }
    let raw = file_name.substring_char(0, len - 5);
    Some(trim_str(raw))
}

/// Compute the relative file path for a logical stream name.
pub fn agent_stream_path(name: &str) -> (r: String)
    ensures
        r@ == path_of_name(name@),
{
    proof {
        reveal_strlit(".json");
    }
    let mut r = name.to_owned();
    r.append(".json");
    proof {
        assert(r@ =~= path_of_name(name@));
    }
    r
}

/// Split a name into its slash-separated segments.
pub fn split_name(name: &str) -> (r: Vec<String>)
    ensures
        r.deep_view() == split_segs(name@),
{
    let ghost n = name@;
    let len = name.unicode_len();
    let mut r: Vec<String> = Vec::new();
    let mut start: usize = 0;
    let mut i: usize = 0;
    proof {
        assert(n.subrange(0, 0) =~= Seq::<char>::empty());
        assert(r.deep_view().push(n.subrange(0, 0)) =~~= split_segs(n.subrange(0, 0)));
    }
    while i < len
        invariant
            n == name@,
            len == n.len(),
            0 <= start <= i <= len,
            r.deep_view().push(n.subrange(start as int, i as int)) == split_segs(
                n.subrange(0, i as int),
            ),
        decreases len - i,
    {
        let ghost prefix = n.subrange(0, i as int);
        let ghost prefix1 = n.subrange(0, i + 1 as int);
        proof {
            assert(prefix1.drop_last() =~= prefix);
            lemma_split_len(prefix);
        }
        let c = name.get_char(i);
        if c == '/' {
            let ghost r_old = r.deep_view();
            let seg = name.substring_char(start, i).to_owned();
            r.push(seg);
            proof {
                assert(r.deep_view() =~~= r_old.push(n.subrange(start as int, i as int)));
                assert(split_segs(prefix1) == split_segs(prefix).push(Seq::<char>::empty()));
                assert(n.subrange(i + 1 as int, i + 1 as int) =~= Seq::<char>::empty());
                assert(r.deep_view().push(n.subrange(i + 1 as int, i + 1 as int)) =~~= split_segs(
                    prefix1,
                ));
            }
            start = i + 1;
        } else {
            proof {
                let s = split_segs(prefix);
                assert(split_segs(prefix1) == s.update(s.len() - 1, s.last().push(n[i as int])));
                assert(s.last() == n.subrange(start as int, i as int));
                assert(n.subrange(start as int, i + 1 as int) =~= n.subrange(
                    start as int,
                    i as int,
                ).push(n[i as int]));
                assert(r.deep_view().push(n.subrange(start as int, i + 1 as int)) =~= split_segs(
                    prefix1,
                ));
            }
        }
        i += 1;
    }
    let ghost r_old = r.deep_view();
    let seg = name.substring_char(start, len).to_owned();
    r.push(seg);
    proof {
        assert(r.deep_view() =~~= r_old.push(n.subrange(start as int, len as int)));
        assert(n.subrange(0, len as int) =~= n);
        assert(r.deep_view() =~~= split_segs(n));
    }
    r
}

/// Join segments with `/` into one name.
pub fn join_name(segs: &Vec<String>) -> (r: String)
    requires
        segs@.len() >= 1,
    ensures
        r@ == join_segs(segs.deep_view()),
{
    proof {
        reveal_strlit("/");
    }
    let mut r = segs[0].clone();
    let mut i: usize = 1;
    proof {
        assert(segs.deep_view().subrange(0, 1) =~= seq![segs@[0]@]);
    }
    while i < segs.len()
        invariant
            1 <= i <= segs@.len(),
            r@ == join_segs(segs.deep_view().subrange(0, i as int)),
            "/"@ == seq!['/'],
        decreases segs@.len() - i,
    {
        r.append("/");
        r.append(segs[i].as_str());
        proof {
            let dv = segs.deep_view();
            assert(dv.subrange(0, i + 1 as int).drop_last() =~= dv.subrange(0, i as int));
            assert(r@ =~= join_segs(dv.subrange(0, i + 1 as int)));
        }
        i += 1;
    }
    proof {
        assert(segs.deep_view().subrange(0, segs@.len() as int) =~= segs.deep_view());
    }
    r
}

/// Check that a name is non-empty and has no empty segment.
pub fn is_valid_name(name: &str) -> (r: bool)
    ensures
        r == valid_name(name@),
{
    if name.is_empty() {
        return false;
    }
    let segs = split_name(name);
    let mut i: usize = 0;
    while i < segs.len()
        invariant
            0 <= i <= segs@.len(),
            segs.deep_view() == split_segs(name@),
            forall|j: int| 0 <= j < i ==> #[trigger] split_segs(name@)[j].len() > 0,
        decreases segs@.len() - i,
    {
        if segs[i].as_str().is_empty() {
            proof {
                assert(split_segs(name@)[i as int].len() == 0);
            }
            return false;
        }
        i += 1;
    }
    true
}

} // verus!
