use vstd::prelude::*;

verus! {

/// The comma byte that separates record fields.
pub open spec fn comma() -> u8 {
    44
}

/// No byte of the field is a comma.
pub open spec fn comma_free(f: Seq<u8>) -> bool {
    forall|i: int| 0 <= i < f.len() ==> f[i] != comma()
}

/// The byte sequences of a list of byte vectors.
pub open spec fn bytes_view(v: Seq<Vec<u8>>) -> Seq<Seq<u8>> {
    Seq::new(v.len(), |i: int| v[i]@)
}

/// The fields of `s`, split on commas; always at least one field.
pub open spec fn split_commas(s: Seq<u8>) -> Seq<Seq<u8>>
    decreases s.len(),
{
    if s.len() == 0 {
        seq![Seq::<u8>::empty()]
    } else if s[0] == comma() {
        seq![Seq::<u8>::empty()] + split_commas(s.drop_first())
    } else {
        let rest = split_commas(s.drop_first());
        seq![seq![s[0]] + rest[0]] + rest.drop_first()
    }
}

/// The fields joined back with comma separators.
pub open spec fn join_commas(fs: Seq<Seq<u8>>) -> Seq<u8>
    decreases fs.len(),
{
    if fs.len() <= 1 {
        if fs.len() == 0 {
            Seq::<u8>::empty()
        } else {
            fs[0]
        }
    } else {
        fs[0] + seq![comma()] + join_commas(fs.drop_first())
    }
}

pub proof fn lemma_split_len(s: Seq<u8>)
    ensures
        split_commas(s).len() >= 1,
    decreases s.len(),
{
    if s.len() != 0 {
        lemma_split_len(s.drop_first());
    }
}

/// Splitting after prepending a comma-free field extends the first field.
proof fn lemma_split_prepend(f: Seq<u8>, s: Seq<u8>)
    requires
        comma_free(f),
    ensures
        split_commas(f + s) =~= seq![f + split_commas(s)[0]] + split_commas(s).drop_first(),
    decreases f.len(),
{
    lemma_split_len(s);
    if f.len() == 0 {
        assert(f + s =~= s);
        assert(f + split_commas(s)[0] =~= split_commas(s)[0]);
        assert(seq![split_commas(s)[0]] + split_commas(s).drop_first() =~= split_commas(s));
    } else {
        assert(f[0] != comma());
        let t = f + s;
        assert(t.len() > 0 && t[0] == f[0]);
        assert(t.drop_first() =~= f.drop_first() + s);
        lemma_split_prepend(f.drop_first(), s);
        let rest = split_commas(t.drop_first());
        assert(rest[0] == f.drop_first() + split_commas(s)[0]);
        assert(rest.drop_first() =~= split_commas(s).drop_first());
        assert(seq![t[0]] + rest[0] =~= f + split_commas(s)[0]);
        assert(split_commas(t) =~= seq![seq![t[0]] + rest[0]] + rest.drop_first());
    }
}

/// Joining comma-free fields and splitting again gives the fields back.
pub proof fn lemma_split_join(fs: Seq<Seq<u8>>)
    requires
        fs.len() >= 1,
        forall|i: int| 0 <= i < fs.len() ==> comma_free(#[trigger] fs[i]),
    ensures
        split_commas(join_commas(fs)) == fs,
    decreases fs.len(),
{
    if fs.len() == 1 {
        let f = fs[0];
        lemma_split_prepend(f, Seq::<u8>::empty());
        assert(f + Seq::<u8>::empty() =~= f);
        assert(split_commas(Seq::<u8>::empty()) == seq![Seq::<u8>::empty()]);
        assert(f + Seq::<u8>::empty() =~= f);
        assert(split_commas(f) =~= seq![f]);
        assert(join_commas(fs) == f);
        assert(split_commas(join_commas(fs)) =~= fs);
    } else {
        let f = fs[0];
        let rest = fs.drop_first();
        assert(forall|i: int| 0 <= i < rest.len() ==> comma_free(#[trigger] rest[i]));
        lemma_split_join(rest);
        let t = seq![comma()] + join_commas(rest);
        assert(join_commas(fs) =~= f + t);
        assert(t[0] == comma());
        assert(t.drop_first() =~= join_commas(rest));
        assert(split_commas(t) =~= seq![Seq::<u8>::empty()] + split_commas(join_commas(rest)));
        assert(split_commas(t) =~= seq![Seq::<u8>::empty()] + rest);
        lemma_split_prepend(f, t);
        assert(split_commas(t)[0] == Seq::<u8>::empty());
        assert(f + Seq::<u8>::empty() =~= f);
        assert(split_commas(t).drop_first() =~= rest);
        assert(split_commas(join_commas(fs)) =~= seq![f] + rest);
        assert(seq![f] + rest =~= fs);
    }
}

/// Splitting after a trailing comma adds one empty field.
proof fn lemma_split_snoc_comma(s: Seq<u8>)
    ensures
        split_commas(s.push(comma())) =~= split_commas(s).push(Seq::<u8>::empty()),
    decreases s.len(),
{
    lemma_split_len(s);
    if s.len() == 0 {
        let t = s.push(comma());
        assert(t =~= seq![comma()]);
        assert(t[0] == comma());
        assert(t.drop_first() =~= Seq::<u8>::empty());
        assert(split_commas(Seq::<u8>::empty()) == seq![Seq::<u8>::empty()]);
        assert(split_commas(t) =~= seq![Seq::<u8>::empty()] + split_commas(t.drop_first()));
    } else {
        let t = s.push(comma());
        assert(t[0] == s[0]);
        assert(t.drop_first() =~= s.drop_first().push(comma()));
        lemma_split_snoc_comma(s.drop_first());
        lemma_split_len(s.drop_first());
        if s[0] == comma() {
            assert(split_commas(t) =~= seq![Seq::<u8>::empty()] + split_commas(t.drop_first()));
        } else {
            let rest = split_commas(t.drop_first());
            let rest0 = split_commas(s.drop_first());
            assert(rest =~= rest0.push(Seq::<u8>::empty()));
            assert(rest[0] == rest0[0]);
            assert(rest.drop_first() =~= rest0.drop_first().push(Seq::<u8>::empty()));
        }
    }
}

/// Splitting after a non-comma byte extends the last field.
proof fn lemma_split_snoc(s: Seq<u8>, c: u8)
    requires
        c != comma(),
    ensures
        split_commas(s.push(c)) =~= split_commas(s).update(
            split_commas(s).len() - 1,
            split_commas(s).last().push(c),
        ),
    decreases s.len(),
{
    lemma_split_len(s);
    if s.len() == 0 {
        let t = s.push(c);
        assert(t =~= seq![c]);
        assert(t[0] == c && c != comma());
        assert(t.drop_first() =~= Seq::<u8>::empty());
        assert(split_commas(Seq::<u8>::empty()) == seq![Seq::<u8>::empty()]);
        let rest = split_commas(t.drop_first());
        assert(rest[0] =~= Seq::<u8>::empty());
        assert(split_commas(t) =~= seq![seq![t[0]] + rest[0]] + rest.drop_first());
        assert(seq![t[0]] + rest[0] =~= seq![c]);
        assert(seq![c] =~= Seq::<u8>::empty().push(c));
        assert(split_commas(t) =~= seq![Seq::<u8>::empty().push(c)]);
    } else {
        let t = s.push(c);
        assert(t[0] == s[0]);
        assert(t.drop_first() =~= s.drop_first().push(c));
        lemma_split_snoc(s.drop_first(), c);
        lemma_split_len(s.drop_first());
        let rest = split_commas(t.drop_first());
        let rest0 = split_commas(s.drop_first());
        assert(rest =~= rest0.update(rest0.len() - 1, rest0.last().push(c)));
        if s[0] == comma() {
            assert(split_commas(t) =~= seq![Seq::<u8>::empty()] + rest);
        } else {
            if rest0.len() == 1 {
                assert(rest[0] == rest0[0].push(c));
                assert(split_commas(t) =~= seq![seq![t[0]] + rest[0]] + rest.drop_first());
                assert(split_commas(s) =~= seq![seq![s[0]] + rest0[0]] + rest0.drop_first());
                assert(seq![s[0]] + rest0[0].push(c) =~= (seq![s[0]] + rest0[0]).push(c));
            } else {
                assert(rest[0] == rest0[0]);
                assert(rest.drop_first() =~= rest0.drop_first().update(
                    rest0.drop_first().len() - 1,
                    rest0.drop_first().last().push(c),
                ));
            }
        }
    }
}

/// Splits a raw field line on commas.
pub fn split_commas_exec(s: &[u8]) -> (r: Vec<Vec<u8>>)
    ensures
        bytes_view(r@) == split_commas(s@),
{
    let mut done: Vec<Vec<u8>> = Vec::new();
    let mut cur: Vec<u8> = Vec::new();
    let mut i: usize = 0;
    while i < s.len()
        invariant
            0 <= i <= s@.len(),
            bytes_view(done@).push(cur@) =~= split_commas(s@.subrange(0, i as int)),
        decreases s@.len() - i,
    {
        let ghost prefix = s@.subrange(0, i as int);
        let b = s[i];
        proof {
            assert(s@.subrange(0, i as int + 1) =~= prefix.push(s@[i as int]));
        }
        if b == 44 {
            proof {
                lemma_split_snoc_comma(prefix);
            }
            let ghost dv = bytes_view(done@);
            let ghost cv = cur@;
            done.push(cur);
            cur = Vec::new();
            assert(bytes_view(done@) =~= dv.push(cv));
            assert(bytes_view(done@).push(cur@) =~= split_commas(s@.subrange(0, i as int + 1)));
        } else {
            proof {
                lemma_split_snoc(prefix, b);
                lemma_split_len(prefix);
            }
            cur.push(b);
            assert(bytes_view(done@).push(cur@) =~= split_commas(s@.subrange(0, i as int + 1)));
        }
        i = i + 1;
    }
    proof {
        assert(s@.subrange(0, s@.len() as int) =~= s@);
    }
    let ghost dv = bytes_view(done@);
    let ghost cv = cur@;
    done.push(cur);
    assert(bytes_view(done@) =~= dv.push(cv));
    done
}

/// Joining a further field appends a comma and the field.
pub proof fn lemma_join_push(fs: Seq<Seq<u8>>, f: Seq<u8>)
    requires
        fs.len() >= 1,
    ensures
        join_commas(fs.push(f)) =~= join_commas(fs) + seq![comma()] + f,
    decreases fs.len(),
{
    if fs.len() == 1 {
        let t = fs.push(f);
        assert(t.drop_first() =~= seq![f]);
        assert(join_commas(seq![f]) == f);
        assert(t[0] == fs[0]);
    } else {
        lemma_join_push(fs.drop_first(), f);
        let t = fs.push(f);
        assert(t[0] == fs[0]);
        assert(t.drop_first() =~= fs.drop_first().push(f));
    }
}

/// Joins fields with comma separators.
pub fn join_commas_exec(fields: &Vec<Vec<u8>>) -> (r: Vec<u8>)
    requires
        fields@.len() >= 1,
    ensures
        r@ == join_commas(bytes_view(fields@)),
{
    let mut out: Vec<u8> = Vec::new();
    let mut i: usize = 0;
    let first = &fields[0];
    let mut j: usize = 0;
    while j < first.len()
        invariant
            0 <= j <= first@.len(),
            fields@.len() >= 1,
            first@ == fields@[0]@,
            out@ =~= first@.subrange(0, j as int),
        decreases first@.len() - j,
    {
        out.push(first[j]);
        assert(out@ =~= first@.subrange(0, j as int + 1));
        j = j + 1;
    }
    assert(out@ =~= bytes_view(fields@)[0]);
    assert(bytes_view(fields@).subrange(0, 1) =~= seq![bytes_view(fields@)[0]]);
    assert(join_commas(bytes_view(fields@).subrange(0, 1)) == bytes_view(fields@)[0]);
    i = 1;
    while i < fields.len()
        invariant
            1 <= i <= fields@.len(),
            out@ =~= join_commas(bytes_view(fields@).subrange(0, i as int)),
        decreases fields@.len() - i,
    {
        let ghost pre = bytes_view(fields@).subrange(0, i as int);
        proof {
            lemma_join_push(pre, bytes_view(fields@)[i as int]);
            assert(bytes_view(fields@).subrange(0, i as int + 1) =~= pre.push(
                bytes_view(fields@)[i as int],
            ));
        }
        out.push(44);
        let fld = &fields[i];
        let mut k: usize = 0;
        while k < fld.len()
            invariant
                0 <= k <= fld@.len(),
                1 <= i < fields@.len(),
                fld@ == fields@[i as int]@,
                out@ =~= join_commas(bytes_view(fields@).subrange(0, i as int)) + seq![comma()]
                    + fld@.subrange(0, k as int),
            decreases fld@.len() - k,
        {
            out.push(fld[k]);
            assert(out@ =~= join_commas(bytes_view(fields@).subrange(0, i as int)) + seq![comma()]
                + fld@.subrange(0, k as int + 1));
            k = k + 1;
        }
        assert(fld@.subrange(0, fld@.len() as int) =~= bytes_view(fields@)[i as int]);
        assert(out@ =~= join_commas(bytes_view(fields@).subrange(0, i as int + 1)));
        i = i + 1;
    }
    proof {
        assert(bytes_view(fields@).subrange(0, bytes_view(fields@).len() as int)
            =~= bytes_view(fields@));
    }
    out
}

/// Copies `s[from..to]` into a fresh vector.
pub fn copy_range(s: &[u8], from: usize, to: usize) -> (r: Vec<u8>)
    requires
        from <= to <= s@.len(),
    ensures
        r@ == s@.subrange(from as int, to as int),
{
    let mut r: Vec<u8> = Vec::new();
    let mut i: usize = from;
    while i < to
        invariant
            from <= i <= to <= s@.len(),
            r@ =~= s@.subrange(from as int, i as int),
        decreases to - i,
    {
        r.push(s[i]);
        assert(r@ =~= s@.subrange(from as int, i as int + 1));
        i = i + 1;
    }
    r
}

/// Whether two byte slices hold the same bytes.
pub fn bytes_eq(a: &[u8], b: &[u8]) -> (r: bool)
    ensures
        r == (a@ == b@),
{
    if a.len() != b.len() {
        assert(a@.len() != b@.len());
        return false;
    }
    let mut i: usize = 0;
    while i < a.len()
        invariant
            0 <= i <= a@.len(),
            a@.len() == b@.len(),
            forall|j: int| 0 <= j < i ==> a@[j] == b@[j],
        decreases a@.len() - i,
    {
        if a[i] != b[i] {
            assert(a@[i as int] != b@[i as int]);
            assert(a@ != b@);
            return false;
        }
        i = i + 1;
    }
    assert(a@ =~= b@);
    true
}

/// Whether no byte of the slice is a comma.
pub fn comma_free_exec(s: &[u8]) -> (b: bool)
    ensures
        b == comma_free(s@),
{
    let mut i: usize = 0;
    while i < s.len()
        invariant
            0 <= i <= s@.len(),
            forall|j: int| 0 <= j < i ==> s@[j] != comma(),
        decreases s@.len() - i,
    {
        if s[i] == 44 {
            assert(s@[i as int] == comma());
            return false;
        }
        i = i + 1;
    }
    true
}

/// Appends all of `b` to `out`.
pub fn push_bytes(out: &mut Vec<u8>, b: &[u8])
    ensures
        final(out)@ == old(out)@ + b@,
{
    let mut i: usize = 0;
    while i < b.len()
        invariant
            0 <= i <= b@.len(),
            out@ =~= old(out)@ + b@.subrange(0, i as int),
        decreases b@.len() - i,
    {
        out.push(b[i]);
        assert(out@ =~= old(out)@ + b@.subrange(0, i as int + 1));
        i = i + 1;
    }
    assert(out@ =~= old(out)@ + b@);
}

} // verus!
