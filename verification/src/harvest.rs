//! The extraction harvester: re-homes the files the engine wrote into the
//! blob store, each under a fresh token, and records one download URL per
//! extraction identifier.
//!
//! Several files under one identifier each get their own token, but the
//! identifier's recorded URL is the last file's: last writer wins, an
//! aliasing kept deliberately and stated in the contracts rather than left
//! ambiguous.  Directories that were missing, empty or unreadable reach
//! this module as identifiers with no files and are skipped without failing
//! the request.

use crate::store::{copy_bytes, BlobStore};
use vstd::prelude::*;

verus! {

broadcast use vstd::set::group_set_axioms;

/// Some fresh key, absent before, now resolves to this payload.
pub open spec fn stored_fresh(
    before: Map<Seq<char>, Seq<u8>>,
    after: Map<Seq<char>, Seq<u8>>,
    payload: Seq<u8>,
) -> bool {
    exists|k: Seq<char>|
        !before.contains_key(k) && #[trigger] after.contains_key(k) && after[k] == payload
}

/// The store after exactly these additions: `ks` are pairwise-distinct keys
/// absent before, key `ks[a]` now holds `payloads[a]`, and nothing else was
/// added.  Together with `preserves` this fixes the whole new state.
pub open spec fn new_entries_ok(
    before: Map<Seq<char>, Seq<u8>>,
    after: Map<Seq<char>, Seq<u8>>,
    ks: Seq<Seq<char>>,
    payloads: Seq<Seq<u8>>,
) -> bool {
    &&& ks.len() == payloads.len()
    &&& forall|a: int, b: int| 0 <= a < b < ks.len() ==> ks[a] != ks[b]
    &&& forall|a: int|
        0 <= a < ks.len() ==> !before.contains_key(#[trigger] ks[a]) && after.contains_key(
            ks[a],
        ) && after[ks[a]] == payloads[a]
    &&& forall|k: Seq<char>|
        #[trigger] after.contains_key(k) ==> before.contains_key(k) || ks.contains(k)
}

/// The URL path prefix a harvested artifact is served under.
pub open spec fn download_prefix() -> Seq<char> {
    "/api/download/"@
}

/// The download URL for a token: the fixed prefix, then the token.
pub fn download_url(token: &String) -> (u: String)
    ensures
        u@ == download_prefix() + token@,
{
    let mut u: String = "/api/download/".to_owned();
    u.append(token.as_str());
    u
}

/// How many files a batch of extractions carries in all.
pub open spec fn total_files(s: Seq<(String, Vec<Vec<u8>>)>) -> nat
    decreases s.len(),
{
    if s.len() == 0 {
        0
    } else {
        total_files(s.drop_last()) + s.last().1.deep_view().len()
    }
}

/// Every file payload a batch of extractions carries, in batch order.
pub open spec fn all_payloads(s: Seq<(String, Vec<Vec<u8>>)>) -> Seq<Seq<u8>>
    decreases s.len(),
{
    if s.len() == 0 {
        Seq::empty()
    } else {
        all_payloads(s.drop_last()) + s.last().1.deep_view()
    }
}

/// The identifiers of the extractions that carry at least one file, in
/// batch order.
pub open spec fn ids_with_files(s: Seq<(String, Vec<Vec<u8>>)>) -> Seq<String>
    decreases s.len(),
{
    if s.len() == 0 {
        Seq::empty()
    } else {
        ids_with_files(s.drop_last()) + (if s.last().1.deep_view().len() > 0 {
            seq![s.last().0]
        } else {
            Seq::<String>::empty()
        })
    }
}

/// How many extractions in a batch carry at least one file.
pub open spec fn nonempty_count(s: Seq<(String, Vec<Vec<u8>>)>) -> nat
    decreases s.len(),
{
    if s.len() == 0 {
        0
    } else {
        nonempty_count(s.drop_last()) + (if s.last().1.deep_view().len() > 0 {
            1nat
        } else {
            0nat
        })
    }
}

/// An element-for-element copy of a batch of file payloads.
fn copy_files(v: &Vec<Vec<u8>>) -> (r: Vec<Vec<u8>>)
    ensures
        r.deep_view() == v.deep_view(),
{
    let mut r: Vec<Vec<u8>> = Vec::new();
    let mut i: usize = 0;
    while i < v.len()
        invariant
            0 <= i <= v@.len(),
            r.deep_view() == v.deep_view().take(i as int),
        decreases v@.len() - i,
    {
        let b = copy_bytes(&v[i]);
        proof {
            assert(b.deep_view() =~= b@);
            assert(v@[i as int].deep_view() =~= v@[i as int]@);
            assert(v.deep_view()[i as int] == v@[i as int].deep_view());
        }
        let ghost pre = r;
        r.push(b);
        i = i + 1;
        proof {
            let rd = r.deep_view();
            let vd = v.deep_view().take(i as int);
            assert(r@.len() == pre@.len() + 1);
            assert(pre.deep_view().len() == pre@.len());
            assert(pre.deep_view().len() == i - 1);
            assert(rd.len() == r@.len());
            assert(rd.len() == i);
            assert(vd.len() == i);
            assert forall|k: int| 0 <= k < i implies rd[k] == vd[k] by {
                assert(rd[k] == r@[k].deep_view());
                if k < i - 1 {
                    assert(r@[k] == pre@[k]);
                    assert(pre.deep_view()[k] == pre@[k].deep_view());
                    assert(pre.deep_view()[k] == v.deep_view().take(i - 1)[k]);
                } else {
                    assert(r@[k] == b);
                }
            }
            assert(r.deep_view() =~= v.deep_view().take(i as int));
        }
    }
    proof {
        assert(r.deep_view() =~~= v.deep_view());
    }
    r
}

/// Harvests the files of one extraction: every file goes into the store
/// under a fresh token; the identifier resolves to the URL of the last
/// file's token; an extraction with no files yields nothing and leaves the
/// store untouched.
#[verifier::rlimit(50)]
#[verifier::spinoff_prover]
pub fn harvest_one(store: &mut BlobStore, ext_id: String, files: Vec<Vec<u8>>) -> (r: Option<
    (String, String),
>)
    requires
        old(store).wf(),
    ensures
        final(store).wf(),
        preserves(old(store)@, final(store)@),
        final(store)@.dom().len() == old(store)@.dom().len() + files.deep_view().len(),
        forall|fi: int|
            0 <= fi < files.deep_view().len() ==> stored_fresh(
                old(store)@,
                final(store)@,
                #[trigger] files.deep_view()[fi],
            ),
        exists|ks: Seq<Seq<char>>|
            new_entries_ok(old(store)@, final(store)@, ks, files.deep_view()),
        files.deep_view().len() == 0 <==> r is None,
        r is None ==> final(store)@ == old(store)@,
        r matches Some(p) ==> {
            &&& p.0 == ext_id
            &&& exists|t: Seq<char>|
                {
                    &&& p.1@ == download_prefix() + t
                    &&& !old(store)@.contains_key(t)
                    &&& #[trigger] final(store)@.contains_key(t)
                    &&& final(store)@[t] == files.deep_view().last()
                }
        },
{
    let n = files.len();
    proof {
        assert(files.deep_view().len() == files@.len());
        old(store).dom_finite();
    }
    if n == 0 {
        proof {
            assert(new_entries_ok(
                old(store)@,
                old(store)@,
                Seq::<Seq<char>>::empty(),
                files.deep_view(),
            ));
        }
        return None;
    }
    let ghost s0 = old(store)@;
    let ghost mut issued: Seq<Seq<char>> = Seq::empty();
    let mut tok: Option<String> = None;
    let mut i: usize = 0;
    while i < n
        invariant
            0 < n == files@.len() == files.deep_view().len(),
            0 <= i <= n,
            store.wf(),
            store@.dom().finite(),
            preserves(s0, store@),
            store@.dom().len() == s0.dom().len() + i,
            forall|fi: int|
                0 <= fi < i ==> stored_fresh(s0, store@, #[trigger] files.deep_view()[fi]),
            issued.len() == i,
            forall|a: int, b: int| 0 <= a < b < i ==> issued[a] != issued[b],
            forall|a: int|
                0 <= a < i ==> !s0.contains_key(#[trigger] issued[a]) && store@.contains_key(
                    issued[a],
                ) && store@[issued[a]] == files.deep_view()[a],
            forall|k: Seq<char>|
                #[trigger] store@.contains_key(k) ==> s0.contains_key(k) || issued.contains(k),
            i > 0 ==> (tok matches Some(t) && !s0.contains_key(t@) && store@.contains_key(t@)
                && store@[t@] == files.deep_view()[i - 1]),
        decreases n - i,
    {
        let data = copy_bytes(&files[i]);
        proof {
            assert(data@ == files.deep_view()[i as int]);
        }
        let ghost pre = store@;
        let t = store.put(data);
        proof {
            store.dom_finite();
            assert(store@.dom() =~= pre.dom().insert(t@));
            assert(!s0.contains_key(t@));
            assert forall|k: Seq<char>| s0.contains_key(k) implies #[trigger] store@.contains_key(
                k,
            ) && store@[k] == s0[k] by {
                assert(preserves(s0, pre));
                assert(pre.contains_key(k));
                assert(pre[k] == s0[k]);
            }
            assert forall|fi: int| 0 <= fi < i + 1 implies stored_fresh(
                s0,
                store@,
                #[trigger] files.deep_view()[fi],
            ) by {
                if fi < i {
                    let k = choose|k: Seq<char>|
                        !s0.contains_key(k) && #[trigger] pre.contains_key(k) && pre[k]
                            == files.deep_view()[fi];
                    assert(store@.contains_key(k) && store@[k] == files.deep_view()[fi]);
                } else {
                    assert(store@.contains_key(t@) && store@[t@] == files.deep_view()[fi]);
                }
            }
            let pre_issued = issued;
            issued = issued.push(t@);
            assert forall|a: int| 0 <= a < i + 1 implies !s0.contains_key(#[trigger] issued[a])
                && store@.contains_key(issued[a]) && store@[issued[a]] == files.deep_view()[a] by {
                if a < i {
                    assert(issued[a] == pre_issued[a]);
                    assert(pre.contains_key(pre_issued[a]));
                    assert(pre_issued[a] != t@);
                } else {
                    assert(issued[a] == t@);
                }
            }
            assert forall|a: int, b: int| 0 <= a < b < i + 1 implies issued[a] != issued[b] by {
                if b < i {
                    assert(issued[a] == pre_issued[a] && issued[b] == pre_issued[b]);
                } else {
                    assert(issued[b] == t@);
                    assert(pre.contains_key(pre_issued[a]));
                }
            }
            assert forall|k: Seq<char>| #[trigger] store@.contains_key(k) implies s0.contains_key(
                k,
            ) || issued.contains(k) by {
                if k == t@ {
                    assert(issued[i as int] == k);
                    assert(issued.contains(k));
                } else {
                    assert(pre.contains_key(k));
                    if !s0.contains_key(k) {
                        assert(pre_issued.contains(k));
                        let idx = choose|idx: int|
                            0 <= idx < pre_issued.len() && pre_issued[idx] == k;
                        assert(issued[idx] == k);
                        assert(issued.contains(k));
                    }
                }
            }
        }
        tok = Some(t);
        i = i + 1;
    }
    proof {
        assert(new_entries_ok(s0, store@, issued, files.deep_view()));
    }
    let t = tok.unwrap();
    let url = download_url(&t);
    proof {
        assert(store@.contains_key(t@));
        assert(files.deep_view().last() == files.deep_view()[n - 1]);
    }
    Some((ext_id, url))
}

/// Every key of `before` is still present in `after`, with its payload
/// unchanged: nothing a store ever held is lost or altered.
pub open spec fn preserves(before: Map<Seq<char>, Seq<u8>>, after: Map<Seq<char>, Seq<u8>>) -> bool {
    forall|k: Seq<char>|
        before.contains_key(k) ==> #[trigger] after.contains_key(k) && after[k] == before[k]
}

proof fn lemma_stored_fresh_wider(
    before: Map<Seq<char>, Seq<u8>>,
    mid: Map<Seq<char>, Seq<u8>>,
    after: Map<Seq<char>, Seq<u8>>,
    payload: Seq<u8>,
)
    requires
        stored_fresh(before, mid, payload),
        preserves(mid, after),
    ensures
        stored_fresh(before, after, payload),
{
    let k = choose|k: Seq<char>|
        !before.contains_key(k) && #[trigger] mid.contains_key(k) && mid[k] == payload;
    assert(after.contains_key(k) && after[k] == payload);
}

proof fn lemma_stored_fresh_earlier(
    before: Map<Seq<char>, Seq<u8>>,
    mid: Map<Seq<char>, Seq<u8>>,
    after: Map<Seq<char>, Seq<u8>>,
    payload: Seq<u8>,
)
    requires
        stored_fresh(mid, after, payload),
        preserves(before, mid),
    ensures
        stored_fresh(before, after, payload),
{
    let k = choose|k: Seq<char>|
        !mid.contains_key(k) && #[trigger] after.contains_key(k) && after[k] == payload;
    assert(!before.contains_key(k));
}

proof fn lemma_new_entries_compose(
    before: Map<Seq<char>, Seq<u8>>,
    mid: Map<Seq<char>, Seq<u8>>,
    after: Map<Seq<char>, Seq<u8>>,
    ka: Seq<Seq<char>>,
    pa: Seq<Seq<u8>>,
    kb: Seq<Seq<char>>,
    pb: Seq<Seq<u8>>,
)
    requires
        new_entries_ok(before, mid, ka, pa),
        new_entries_ok(mid, after, kb, pb),
        preserves(before, mid),
        preserves(mid, after),
    ensures
        new_entries_ok(before, after, ka + kb, pa + pb),
{
    let ks = ka + kb;
    let ps = pa + pb;
    assert forall|a: int, b: int| 0 <= a < b < ks.len() implies ks[a] != ks[b] by {
        if b < ka.len() {
            assert(ks[a] == ka[a] && ks[b] == ka[b]);
        } else if a >= ka.len() {
            assert(ks[a] == kb[a - ka.len()] && ks[b] == kb[b - ka.len()]);
        } else {
            assert(ks[a] == ka[a] && ks[b] == kb[b - ka.len()]);
            assert(mid.contains_key(ka[a]));
            assert(!mid.contains_key(kb[b - ka.len()]));
        }
    }
    assert forall|a: int| 0 <= a < ks.len() implies !before.contains_key(#[trigger] ks[a])
        && after.contains_key(ks[a]) && after[ks[a]] == ps[a] by {
        if a < ka.len() {
            assert(ks[a] == ka[a] && ps[a] == pa[a]);
            assert(mid.contains_key(ka[a]) && mid[ka[a]] == pa[a]);
        } else {
            assert(ks[a] == kb[a - ka.len()] && ps[a] == pb[a - ka.len()]);
            assert(!mid.contains_key(kb[a - ka.len()]));
            if before.contains_key(kb[a - ka.len()]) {
                assert(mid.contains_key(kb[a - ka.len()]));
            }
        }
    }
    assert forall|k: Seq<char>| #[trigger] after.contains_key(k) implies before.contains_key(k)
        || ks.contains(k) by {
        if !before.contains_key(k) {
            if mid.contains_key(k) {
                assert(ka.contains(k));
                let idx = choose|idx: int| 0 <= idx < ka.len() && ka[idx] == k;
                assert(ks[idx] == k);
                assert(ks.contains(k));
            } else {
                assert(kb.contains(k));
                let idx = choose|idx: int| 0 <= idx < kb.len() && kb[idx] == k;
                assert(ks[ka.len() + idx] == k);
                assert(ks.contains(k));
            }
        }
    }
}

/// A recorded URL entry is sound for a batch and a store state: it names an
/// extraction that carried files, and its URL is the download prefix plus a
/// token that resolves to that extraction's last file.
pub open spec fn url_entry_ok(
    ext: Seq<(String, Vec<Vec<u8>>)>,
    m: Map<Seq<char>, Seq<u8>>,
    e: (String, String),
) -> bool {
    exists|i: int|
        {
            &&& 0 <= i < ext.len()
            &&& e.0 == #[trigger] ext[i].0
            &&& ext[i].1.deep_view().len() > 0
            &&& exists|t: Seq<char>|
                {
                    &&& e.1@ == download_prefix() + t
                    &&& #[trigger] m.contains_key(t)
                    &&& m[t] == ext[i].1.deep_view().last()
                }
        }
}

proof fn lemma_url_entry_grow(
    ext: Seq<(String, Vec<Vec<u8>>)>,
    m1: Map<Seq<char>, Seq<u8>>,
    m2: Map<Seq<char>, Seq<u8>>,
    e: (String, String),
)
    requires
        url_entry_ok(ext, m1, e),
        preserves(m1, m2),
    ensures
        url_entry_ok(ext, m2, e),
{
    let i = choose|i: int|
        {
            &&& 0 <= i < ext.len()
            &&& e.0 == #[trigger] ext[i].0
            &&& ext[i].1.deep_view().len() > 0
            &&& exists|t: Seq<char>|
                {
                    &&& e.1@ == download_prefix() + t
                    &&& #[trigger] m1.contains_key(t)
                    &&& m1[t] == ext[i].1.deep_view().last()
                }
        };
    let t = choose|t: Seq<char>|
        {
            &&& e.1@ == download_prefix() + t
            &&& #[trigger] m1.contains_key(t)
            &&& m1[t] == ext[i].1.deep_view().last()
        };
    assert(m2.contains_key(t) && m2[t] == ext[i].1.deep_view().last());
}

/// Harvests a whole batch of extractions.  The store grows by exactly one
/// fresh entry per file and loses nothing; the result holds one URL per
/// extraction that carried files, under that extraction's identifier, each
/// URL naming a token that resolves to the extraction's last file.
#[verifier::rlimit(50)]
#[verifier::spinoff_prover]
pub fn harvest(store: &mut BlobStore, extractions: &Vec<(String, Vec<Vec<u8>>)>) -> (urls: Vec<
    (String, String),
>)
    requires
        old(store).wf(),
    ensures
        final(store).wf(),
        preserves(old(store)@, final(store)@),
        final(store)@.dom().len() == old(store)@.dom().len() + total_files(extractions@),
        exists|ks: Seq<Seq<char>>|
            new_entries_ok(old(store)@, final(store)@, ks, all_payloads(extractions@)),
        forall|i: int, fi: int|
            0 <= i < extractions@.len() && 0 <= fi < extractions@[i].1.deep_view().len()
                ==> stored_fresh(
                old(store)@,
                final(store)@,
                #[trigger] extractions@[i].1.deep_view()[fi],
            ),
        urls@.len() == nonempty_count(extractions@),
        urls@.map_values((|p: (String, String)| p.0)) == ids_with_files(extractions@),
        forall|j: int|
            0 <= j < urls@.len() ==> url_entry_ok(extractions@, final(store)@, #[trigger] urls@[j]),
        forall|i: int|
            0 <= i < extractions@.len() && #[trigger] extractions@[i].1.deep_view().len() > 0
                ==> exists|j: int| 0 <= j < urls@.len() && #[trigger] urls@[j].0
                == extractions@[i].0,
{
    let ghost s0 = old(store)@;
    let ghost mut batch_keys: Seq<Seq<char>> = Seq::empty();
    let mut urls: Vec<(String, String)> = Vec::new();
    let n = extractions.len();
    let mut j: usize = 0;
    proof {
        assert(extractions@.take(0) =~= Seq::<(String, Vec<Vec<u8>>)>::empty());
        assert(all_payloads(extractions@.take(0)) == Seq::<Seq<u8>>::empty());
        assert(new_entries_ok(s0, s0, batch_keys, all_payloads(extractions@.take(0))));
    }
    while j < n
        invariant
            n == extractions@.len(),
            0 <= j <= n,
            store.wf(),
            preserves(s0, store@),
            store@.dom().len() == s0.dom().len() + total_files(extractions@.take(j as int)),
            new_entries_ok(s0, store@, batch_keys, all_payloads(extractions@.take(j as int))),
            forall|i: int, fi: int|
                0 <= i < j && 0 <= fi < extractions@[i].1.deep_view().len() ==> stored_fresh(
                    s0,
                    store@,
                    #[trigger] extractions@[i].1.deep_view()[fi],
                ),
            urls@.len() == nonempty_count(extractions@.take(j as int)),
            urls@.map_values((|p: (String, String)| p.0)) == ids_with_files(
                extractions@.take(j as int),
            ),
            forall|jj: int|
                0 <= jj < urls@.len() ==> url_entry_ok(
                    extractions@,
                    store@,
                    #[trigger] urls@[jj],
                ),
            forall|i: int|
                0 <= i < j && #[trigger] extractions@[i].1.deep_view().len() > 0 ==> exists|
                    jj: int,
                |
                    0 <= jj < urls@.len() && #[trigger] urls@[jj].0 == extractions@[i].0,
        decreases n - j,
    {
        let ext_id = extractions[j].0.clone();
        let files = copy_files(&extractions[j].1);
        let ghost fdeep = files.deep_view();
        let ghost pre = store@;
        let ghost pre_urls = urls@;
        let one = harvest_one(store, ext_id, files);
        proof {
            assert(extractions@.take(j + 1).drop_last() =~= extractions@.take(j as int));
            assert(extractions@.take(j + 1).last() == extractions@[j as int]);
            assert(fdeep == extractions@[j as int].1.deep_view());
            let ks1 = choose|ks1: Seq<Seq<char>>| new_entries_ok(pre, store@, ks1, fdeep);
            lemma_new_entries_compose(
                s0,
                pre,
                store@,
                batch_keys,
                all_payloads(extractions@.take(j as int)),
                ks1,
                fdeep,
            );
            batch_keys = batch_keys + ks1;
            assert(all_payloads(extractions@.take(j + 1)) == all_payloads(
                extractions@.take(j as int),
            ) + fdeep);
            assert forall|i: int, fi: int|
                0 <= i < j + 1 && 0 <= fi < extractions@[i].1.deep_view().len() implies stored_fresh(
                s0,
                store@,
                #[trigger] extractions@[i].1.deep_view()[fi],
            ) by {
                if i < j {
                    lemma_stored_fresh_wider(
                        s0,
                        pre,
                        store@,
                        extractions@[i].1.deep_view()[fi],
                    );
                } else {
                    assert(stored_fresh(pre, store@, fdeep[fi]));
                    lemma_stored_fresh_earlier(
                        s0,
                        pre,
                        store@,
                        extractions@[i].1.deep_view()[fi],
                    );
                }
            }
            assert forall|k: Seq<char>| s0.contains_key(k) implies #[trigger] store@.contains_key(
                k,
            ) && store@[k] == s0[k] by {
                assert(preserves(s0, pre));
                assert(pre.contains_key(k));
                assert(pre[k] == s0[k]);
            }
            assert forall|jj: int| 0 <= jj < pre_urls.len() implies url_entry_ok(
                extractions@,
                store@,
                #[trigger] pre_urls[jj],
            ) by {
                lemma_url_entry_grow(extractions@, pre, store@, pre_urls[jj]);
            }
        }
        match one {
            Some(p) => {
                urls.push(p);
                proof {
                    assert(urls@.drop_last() =~= pre_urls);
                    assert(urls@.last().0 == extractions@[j as int].0);
                    assert(urls@.map_values((|q: (String, String)| q.0)) =~= ids_with_files(
                        extractions@.take(j + 1),
                    ));
                    let jd = urls@.len() - 1;
                    let t = choose|t: Seq<char>|
                        {
                            &&& urls@[jd].1@ == download_prefix() + t
                            &&& !pre.contains_key(t)
                            &&& #[trigger] store@.contains_key(t)
                            &&& store@[t] == extractions@[j as int].1.deep_view().last()
                        };
                    assert(urls@[jd].0 == extractions@[j as int].0);
                    assert(url_entry_ok(extractions@, store@, urls@[jd]));
                }
            },
            None => {
                proof {
                    assert(extractions@[j as int].1.deep_view().len() == 0);
                    assert(ids_with_files(extractions@.take(j + 1)) =~= ids_with_files(
                        extractions@.take(j as int),
                    ));
                }
            },
        }
        j = j + 1;
    }
    proof {
        assert(extractions@.take(n as int) =~= extractions@);
        assert(new_entries_ok(s0, store@, batch_keys, all_payloads(extractions@)));
    }
    urls
}

} // verus!
