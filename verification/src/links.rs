//! Classification of anchor hrefs: a link counts as a product link exactly
//! when its href contains the fixed marker substring `/product/`.

use vstd::prelude::*;

verus! {

/// The fixed substring that marks a product-detail link.
pub open spec fn product_marker() -> Seq<char> {
    "/product/"@
}

/// A href qualifies as a product link iff the marker occurs in it.
pub open spec fn is_product_link(s: Seq<char>) -> bool {
    exists|i: int| 0 <= i && i + 9 <= s.len() && #[trigger] s.subrange(i, i + 9) == product_marker()
}

/// View of a vector of strings as a sequence of character sequences.
pub open spec fn url_views(v: Seq<String>) -> Seq<Seq<char>> {
    v.map_values(|s: String| s@)
}

/// The set of product links among a page's anchor hrefs.
pub open spec fn product_links_of(hrefs: Seq<Seq<char>>) -> Set<Seq<char>> {
    hrefs.to_set().filter(|s: Seq<char>| is_product_link(s))
}

/// Whether the marker occurs at character position `i` of `s`.
fn marker_at(s: &str, i: usize) -> (r: bool)
    requires
        i + 9 <= s@.len(),
        s@.len() <= usize::MAX,
    ensures
        r == (s@.subrange(i as int, i as int + 9) == product_marker()),
{
    proof {
        reveal_strlit("/product/");
    }
    let r = s.get_char(i) == '/' && s.get_char(i + 1) == 'p' && s.get_char(i + 2) == 'r'
        && s.get_char(i + 3) == 'o' && s.get_char(i + 4) == 'd' && s.get_char(i + 5) == 'u'
        && s.get_char(i + 6) == 'c' && s.get_char(i + 7) == 't' && s.get_char(i + 8) == '/';
    proof {
        let sub = s@.subrange(i as int, i as int + 9);
        if r {
            assert(sub =~= product_marker());
        } else if sub == product_marker() {
            assert(s@[i as int] == sub[0]);
            assert(s@[i as int + 1] == sub[1]);
            assert(s@[i as int + 2] == sub[2]);
            assert(s@[i as int + 3] == sub[3]);
            assert(s@[i as int + 4] == sub[4]);
            assert(s@[i as int + 5] == sub[5]);
            assert(s@[i as int + 6] == sub[6]);
            assert(s@[i as int + 7] == sub[7]);
            assert(s@[i as int + 8] == sub[8]);
            assert(false);
        }
    }
    r
}

/// Does `s` contain the product marker anywhere?
pub fn contains_product_marker(s: &str) -> (r: bool)
    ensures
        r == is_product_link(s@),
{
    let n = s.unicode_len();
    if n < 9 {
        return false;
    }
    let mut i: usize = 0;
    while i <= n - 9
        invariant
            n == s@.len(),
            9 <= n <= usize::MAX,
            i <= n - 8,
            forall|j: int| 0 <= j < i ==> #[trigger] s@.subrange(j, j + 9) != product_marker(),
        decreases n - i,
    {
        if marker_at(s, i) {
            assert(is_product_link(s@));
            return true;
        }
        i = i + 1;
    }
    assert(!is_product_link(s@)) by {
        assert(forall|j: int| 0 <= j && j + 9 <= s@.len() ==> #[trigger] s@.subrange(j, j + 9)
            != product_marker());
    }
    false
}

/// Linear membership test by string equality.
pub fn contains_url(v: &Vec<String>, s: &String) -> (r: bool)
    ensures
        r == url_views(v@).contains(s@),
{
    let mut k: usize = 0;
    while k < v.len()
        invariant
            k <= v.len(),
            forall|j: int| 0 <= j < k ==> url_views(v@)[j] != s@,
        decreases v.len() - k,
    {
        if v[k].eq(s) {
            assert(url_views(v@)[k as int] == s@);
            return true;
        }
        k = k + 1;
    }
    assert(!url_views(v@).contains(s@));
    false
}

/// The product links among `hrefs`, in first-occurrence order, each once.
pub open spec fn product_links_seq(hrefs: Seq<Seq<char>>) -> Seq<Seq<char>>
    decreases hrefs.len(),
{
    if hrefs.len() == 0 {
        Seq::empty()
    } else {
        let pre = product_links_seq(hrefs.drop_last());
        let h = hrefs.last();
        if is_product_link(h) && !pre.contains(h) {
            pre.push(h)
        } else {
            pre
        }
    }
}

/// `links` merged into `acc`, keeping `acc`'s entries and appending the new
/// ones of `links` in their order, each once.
pub open spec fn merged_links(acc: Seq<Seq<char>>, links: Seq<Seq<char>>) -> Seq<Seq<char>>
    decreases links.len(),
{
    if links.len() == 0 {
        acc
    } else {
        let pre = merged_links(acc, links.drop_last());
        let h = links.last();
        if pre.contains(h) {
            pre
        } else {
            pre.push(h)
        }
    }
}

/// Push `s` unless an equal string is already present: set insertion on a
/// duplicate-free vector.
pub fn insert_unique(v: &mut Vec<String>, s: String)
    requires
        url_views(old(v)@).no_duplicates(),
    ensures
        url_views(final(v)@).no_duplicates(),
        url_views(final(v)@) == (if url_views(old(v)@).contains(s@) {
            url_views(old(v)@)
        } else {
            url_views(old(v)@).push(s@)
        }),
        url_views(final(v)@).to_set() == url_views(old(v)@).to_set().insert(s@),
        old(v)@.len() <= final(v)@.len(),
{
    let ghost olds = url_views(v@);
    if !contains_url(v, &s) {
        let ghost sv = s@;
        v.push(s);
        proof {
            broadcast use vstd::seq::Seq::lemma_push_to_set_commute;

            assert(url_views(v@) =~= olds.push(sv));
            assert(url_views(v@).to_set() =~= olds.to_set().insert(sv));
        }
    } else {
        proof {
            assert(url_views(v@).to_set() =~= olds.to_set().insert(s@));
        }
    }
}

/// Set-filter on a pushed element, unfolded.
pub proof fn lemma_product_links_push(hrefs: Seq<Seq<char>>, h: Seq<char>)
    ensures
        is_product_link(h) ==> product_links_of(hrefs.push(h)) == product_links_of(
            hrefs,
        ).insert(h),
        !is_product_link(h) ==> product_links_of(hrefs.push(h)) == product_links_of(hrefs),
{
    broadcast use vstd::seq::Seq::lemma_push_to_set_commute;

    assert(hrefs.push(h).to_set() =~= hrefs.to_set().insert(h));
    if is_product_link(h) {
        assert(product_links_of(hrefs.push(h)) =~= product_links_of(hrefs).insert(h));
    } else {
        assert(product_links_of(hrefs.push(h)) =~= product_links_of(hrefs));
    }
}

/// Keep the hrefs that contain the product marker, in first-occurrence
/// order, without duplicates.
pub fn filter_product_links(hrefs: &Vec<String>) -> (r: Vec<String>)
    ensures
        url_views(r@) == product_links_seq(url_views(hrefs@)),
        url_views(r@).no_duplicates(),
        url_views(r@).to_set() == product_links_of(url_views(hrefs@)),
{
    let mut out: Vec<String> = Vec::new();
    let mut k: usize = 0;
    proof {
        assert(url_views(out@) =~= Seq::<Seq<char>>::empty());
        assert(url_views(hrefs@).take(0) =~= Seq::<Seq<char>>::empty());
        assert(url_views(out@).to_set() =~= product_links_of(url_views(hrefs@).take(0)));
    }
    while k < hrefs.len()
        invariant
            k <= hrefs.len(),
            url_views(out@).no_duplicates(),
            url_views(out@) == product_links_seq(url_views(hrefs@).take(k as int)),
            url_views(out@).to_set() == product_links_of(url_views(hrefs@).take(k as int)),
        decreases hrefs.len() - k,
    {
        let ghost pre = url_views(hrefs@).take(k as int);
        let ghost preout = url_views(out@);
        let ghost h = hrefs@[k as int]@;
        if contains_product_marker(hrefs[k].as_str()) {
            insert_unique(&mut out, hrefs[k].clone());
        }
        proof {
            assert(url_views(hrefs@).take(k + 1) =~= pre.push(h));
            assert(pre.push(h).drop_last() =~= pre);
            lemma_product_links_push(pre, h);
        }
        k = k + 1;
    }
    proof {
        assert(url_views(hrefs@).take(hrefs@.len() as int) =~= url_views(hrefs@));
    }
    out
}

/// Set-union merge: insert every element of `links` into `acc`, keeping
/// `acc` duplicate-free; `acc` never shrinks.
pub fn merge_links(acc: &mut Vec<String>, links: &Vec<String>)
    requires
        url_views(old(acc)@).no_duplicates(),
    ensures
        url_views(final(acc)@).no_duplicates(),
        url_views(final(acc)@) == merged_links(url_views(old(acc)@), url_views(links@)),
        url_views(final(acc)@).to_set() == url_views(old(acc)@).to_set().union(
            url_views(links@).to_set(),
        ),
        old(acc)@.len() <= final(acc)@.len(),
{
    let ghost base = url_views(old(acc)@).to_set();
    let ghost baseseq = url_views(old(acc)@);
    let mut j: usize = 0;
    proof {
        assert(url_views(links@).take(0) =~= Seq::<Seq<char>>::empty());
        assert(url_views(acc@).to_set() =~= base.union(url_views(links@).take(0).to_set()));
    }
    while j < links.len()
        invariant
            j <= links.len(),
            url_views(acc@).no_duplicates(),
            url_views(acc@) == merged_links(baseseq, url_views(links@).take(j as int)),
            url_views(acc@).to_set() == base.union(url_views(links@).take(j as int).to_set()),
            old(acc)@.len() <= acc@.len(),
        decreases links.len() - j,
    {
        let ghost pre = url_views(links@).take(j as int);
        let ghost h = links@[j as int]@;
        insert_unique(acc, links[j].clone());
        proof {
            broadcast use vstd::seq::Seq::lemma_push_to_set_commute;

            assert(url_views(links@).take(j + 1) =~= pre.push(h));
            assert(pre.push(h).drop_last() =~= pre);
            assert(url_views(acc@).to_set() =~= base.union(url_views(links@).take(j + 1).to_set()));
        }
        j = j + 1;
    }
    proof {
        assert(url_views(links@).take(links@.len() as int) =~= url_views(links@));
    }
}

/// A page none of whose hrefs contains the marker contributes no product
/// links at all.
pub proof fn lemma_no_marker_no_products(hrefs: Seq<Seq<char>>)
    requires
        forall|i: int| 0 <= i < hrefs.len() ==> !is_product_link(#[trigger] hrefs[i]),
    ensures
        product_links_of(hrefs) == Set::<Seq<char>>::empty(),
{
    assert(product_links_of(hrefs) =~= Set::<Seq<char>>::empty()) by {
        assert(forall|x: Seq<char>| #[trigger] hrefs.contains(x) ==> !is_product_link(x));
    }
}

} // verus!
