use crate::assembly::error::{failure, plain, AsmError, AsmErrorView, ErrorKind};
use crate::assembly::state::{same_shape, sections_view, Section, SectionView, State};
use vstd::prelude::*;

verus! {

/// Whether the section has a place in the image: it is not label-only.
pub open spec fn emits(s: SectionView) -> bool {
    !s.label_only
}

/// The address behind the section's last byte.
pub open spec fn section_end(s: SectionView) -> int {
    s.offset + s.length->0
}

/// The length of the image: the greatest end of a section that has a place
/// in it, or zero.
pub open spec fn image_len(sections: Seq<SectionView>) -> int
    decreases sections.len(),
{
    if sections.len() == 0 {
        0
    } else {
        let rest = image_len(sections.drop_last());
        let s = sections.last();
        if emits(s) && section_end(s) > rest {
            section_end(s)
        } else {
            rest
        }
    }
}

/// Whether the address `p` lies in the section `s`.
pub open spec fn covers(s: SectionView, p: int) -> bool {
    emits(s) && s.offset <= p < section_end(s)
}

/// The byte of the image at the address `p`: that of the section that `p`
/// lies in (of the last one, if of several), zero where it lies in none.
pub open spec fn byte_at(sections: Seq<SectionView>, p: int) -> u8
    decreases sections.len(),
{
    if sections.len() == 0 {
        0
    } else if covers(sections.last(), p) {
        sections.last().mem[p - sections.last().offset]
    } else {
        byte_at(sections.drop_last(), p)
    }
}

/// The image: at each address below its length the byte that belongs there.
pub open spec fn image(sections: Seq<SectionView>) -> Seq<u8> {
    Seq::new(image_len(sections) as nat, |p: int| byte_at(sections, p))
}

/// Whether the two sections have a place in the image and the address range
/// of one reaches into that of the other.
pub open spec fn overlap(a: SectionView, b: SectionView) -> bool {
    emits(a) && emits(b) && a.offset < section_end(b) && b.offset < section_end(a)
}

/// The index of the first section from `from` on that has a place in the
/// image and no length.
pub open spec fn first_without_length(sections: Seq<SectionView>, from: int) -> Option<int>
    decreases sections.len() - from,
{
    if from < 0 || from >= sections.len() {
        None
    } else if emits(sections[from]) && sections[from].length is None {
        Some(from)
    } else {
        first_without_length(sections, from + 1)
    }
}

/// Whether two of the sections overlap.
pub open spec fn some_overlap(sections: Seq<SectionView>) -> bool {
    exists|i: int, j: int| 0 <= i < j < sections.len() && overlap(sections[i], sections[j])
}

/// The flat image of the sections, where there is one: every section with a
/// place in it has a length, no two of them overlap, and a buffer can hold
/// it.
pub open spec fn flat_image(sections: Seq<SectionView>) -> Result<Seq<u8>, AsmErrorView> {
    match first_without_length(sections, 0) {
        Some(i) => Err(failure(ErrorKind::FlatNeedsLength, sections[i].name)),
        None => if some_overlap(sections) {
            Err(plain(ErrorKind::SectionOverlap))
        } else if image_len(sections) > isize::MAX {
            Err(plain(ErrorKind::ImageTooLarge))
        } else {
            Ok(image(sections))
        },
    }
}

/// Every section with a place in the image ends inside the image.
pub proof fn lemma_image_len_bounds(sections: Seq<SectionView>, i: int)
    requires
        0 <= i < sections.len(),
        emits(sections[i]),
    ensures
        section_end(sections[i]) <= image_len(sections),
        0 <= image_len(sections),
    decreases sections.len(),
{
    lemma_image_len_nonnegative(sections);
    if i < sections.len() - 1 {
        lemma_image_len_bounds(sections.drop_last(), i);
    }
}

/// The image's length is not negative.
pub proof fn lemma_image_len_nonnegative(sections: Seq<SectionView>)
    ensures
        0 <= image_len(sections),
    decreases sections.len(),
{
    if sections.len() > 0 {
        lemma_image_len_nonnegative(sections.drop_last());
    }
}

/// The image's length depends on the places and lengths of the sections
/// only.
pub proof fn lemma_image_len_of_shape(a: Seq<SectionView>, b: Seq<SectionView>)
    requires
        same_shape(a, b),
    ensures
        image_len(a) == image_len(b),
    decreases a.len(),
{
    if a.len() > 0 {
        let ra = a.drop_last();
        let rb = b.drop_last();
        lemma_image_len_of_shape(ra, rb);
    }
}

/// The length of a non-empty image is the end of one of its sections.
pub proof fn lemma_image_len_is_an_end(sections: Seq<SectionView>)
    ensures
        image_len(sections) == 0 || exists|i: int|
            0 <= i < sections.len() && emits(sections[i]) && image_len(sections) == section_end(
                #[trigger] sections[i],
            ),
    decreases sections.len(),
{
    if sections.len() > 0 {
        let rest = sections.drop_last();
        lemma_image_len_is_an_end(rest);
        let s = sections.last();
        if !(emits(s) && section_end(s) > image_len(rest)) && image_len(rest) != 0 {
            let i = choose|i: int|
                0 <= i < rest.len() && emits(rest[i]) && image_len(rest) == section_end(
                    #[trigger] rest[i],
                );
            assert(sections[i] == rest[i]);
        }
    }
}

/// No address lies in two sections that do not overlap, so the image holds
/// at each address of a section that section's byte.
pub proof fn lemma_image_holds_sections(sections: Seq<SectionView>, i: int, p: int)
    requires
        !some_overlap(sections),
        0 <= i < sections.len(),
        covers(sections[i], p),
    ensures
        byte_at(sections, p) == sections[i].mem[p - sections[i].offset],
    decreases sections.len(),
{
    let last = sections.len() - 1;
    if i < last {
        let rest = sections.drop_last();
        if covers(sections.last(), p) {
            assert(overlap(sections[i], sections[last]));
            assert(false);
        }
        lemma_image_holds_sections(rest, i, p);
    }
}

/// An address that lies in no section holds zero in the image.
pub proof fn lemma_image_gap(sections: Seq<SectionView>, p: int)
    requires
        forall|i: int| 0 <= i < sections.len() ==> !covers(#[trigger] sections[i], p),
    ensures
        byte_at(sections, p) == 0,
    decreases sections.len(),
{
    if sections.len() > 0 {
        let rest = sections.drop_last();
        lemma_image_gap(rest, p);
    }
}

fn overlapping(a: &Section, b: &Section) -> (r: bool)
    requires
        a.length is Some,
        b.length is Some,
    ensures
        r == overlap(a@, b@),
{
    if a.label_only || b.label_only {
        return false;
    }
    let a_start = a.offset.0 as u128;
    let b_start = b.offset.0 as u128;
    let a_end = a_start + a.length.unwrap() as u128;
    let b_end = b_start + b.length.unwrap() as u128;
    a_start < b_end && b_start < a_end
}

fn check_lengths(sections: &Vec<Section>) -> (r: Result<(), AsmError>)
    ensures
        match first_without_length(sections_view(sections@), 0) {
            Some(i) => r matches Err(x) && x@ == failure(
                ErrorKind::FlatNeedsLength,
                sections_view(sections@)[i].name,
            ),
            None => r is Ok && forall|i: int|
                0 <= i < sections.len() && emits(#[trigger] sections_view(sections@)[i])
                    ==> sections_view(sections@)[i].length is Some,
        },
{
    let mut i: usize = 0;
    while i < sections.len()
        invariant
            i <= sections.len(),
            first_without_length(sections_view(sections@), 0) == first_without_length(
                sections_view(sections@),
                i as int,
            ),
            forall|j: int|
                0 <= j < i && emits(#[trigger] sections_view(sections@)[j]) ==> sections_view(
                    sections@,
                )[j].length is Some,
        decreases sections.len() - i,
    {
        if !sections[i].label_only && sections[i].length.is_none() {
            return Err(AsmError::with(ErrorKind::FlatNeedsLength, sections[i].name.as_str()));
        }
        i += 1;
    }
    Ok(())
}

fn check_overlaps(sections: &Vec<Section>) -> (r: Result<(), AsmError>)
    requires
        forall|i: int|
            0 <= i < sections.len() && emits(#[trigger] sections_view(sections@)[i])
                ==> sections_view(sections@)[i].length is Some,
    ensures
        some_overlap(sections_view(sections@)) ==> (r matches Err(x) && x@ == plain(
            ErrorKind::SectionOverlap,
        )),
        !some_overlap(sections_view(sections@)) ==> r is Ok,
{
    let ghost views = sections_view(sections@);
    let mut j: usize = 0;
    while j < sections.len()
        invariant
            j <= sections.len(),
            views == sections_view(sections@),
            forall|i: int| 0 <= i < sections.len() && emits(#[trigger] views[i]) ==> views[i].length is Some,
            forall|a: int, b: int| 0 <= a < b < j ==> !overlap(views[a], views[b]),
        decreases sections.len() - j,
    {
        if !sections[j].label_only {
            let mut i: usize = 0;
            while i < j
                invariant
                    i <= j < sections.len(),
                    views == sections_view(sections@),
                    emits(views[j as int]),
                    forall|i: int|
                        0 <= i < sections.len() && emits(#[trigger] views[i])
                            ==> views[i].length is Some,
                    forall|a: int, b: int| 0 <= a < b < j ==> !overlap(views[a], views[b]),
                    forall|a: int| 0 <= a < i ==> !overlap(views[a], views[j as int]),
                decreases j - i,
            {
                if !sections[i].label_only {
                    assert(emits(views[i as int]));
                    if overlapping(&sections[i], &sections[j]) {
                        return Err(AsmError::plain(ErrorKind::SectionOverlap));
                    }
                }
                i += 1;
            }
        }
        j += 1;
    }
    Ok(())
}

fn measure(sections: &Vec<Section>) -> (r: Result<usize, AsmError>)
    requires
        forall|i: int|
            0 <= i < sections.len() && emits(#[trigger] sections_view(sections@)[i])
                ==> sections_view(sections@)[i].length is Some,
    ensures
        image_len(sections_view(sections@)) > isize::MAX ==> (r matches Err(x) && x@ == plain(
            ErrorKind::ImageTooLarge,
        )),
        image_len(sections_view(sections@)) <= isize::MAX ==> r == Ok::<usize, AsmError>(
            image_len(sections_view(sections@)) as usize,
        ),
{
    let ghost views = sections_view(sections@);
    let mut total: u128 = 0;
    let mut i: usize = 0;
    while i < sections.len()
        invariant
            i <= sections.len(),
            views == sections_view(sections@),
            forall|i: int| 0 <= i < sections.len() && emits(#[trigger] views[i]) ==> views[i].length is Some,
            total == image_len(views.take(i as int)),
            total <= 2 * u64::MAX,
        decreases sections.len() - i,
    {
        assert(views.take(i + 1).drop_last() =~= views.take(i as int));
        if !sections[i].label_only {
            assert(emits(views[i as int]));
            let end = sections[i].offset.0 as u128 + sections[i].length.unwrap() as u128;
            if end > total {
                total = end;
            }
        }
        i += 1;
    }
    assert(views.take(sections.len() as int) =~= views);
    if total > isize::MAX as u128 {
        Err(AsmError::plain(ErrorKind::ImageTooLarge))
    } else {
        Ok(total as usize)
    }
}

/// Lays the sections out at their offsets, with zeros between them.
pub fn state_to_flat(state: &State) -> (r: Result<Vec<u8>, AsmError>)
    requires
        state@.wf(),
    ensures
        match flat_image(state@.sections) {
            Ok(bytes) => r matches Ok(out) && out@ == bytes,
            Err(e) => r matches Err(x) && x@ == e,
        },
        r matches Ok(out) ==> out@.len() == image_len(state@.sections),
{
    let sections = &state.sections;
    let ghost views = sections_view(sections@);
    check_lengths(sections)?;
    check_overlaps(sections)?;
    proof {
        lemma_image_len_nonnegative(views);
    }
    let total = measure(sections)?;
    let mut out: Vec<u8> = vec![0u8; total];
    let mut i: usize = 0;
    while i < sections.len()
        invariant
            i <= sections.len(),
            views == sections_view(sections@),
            views == state@.sections,
            state@.wf(),
            total == image_len(views),
            forall|i: int| 0 <= i < sections.len() && emits(#[trigger] views[i]) ==> views[i].length is Some,
            out@ == Seq::new(total as nat, |p: int| byte_at(views.take(i as int), p)),
        decreases sections.len() - i,
    {
        let ghost done = views.take(i as int);
        let ghost next = views.take(i + 1);
        assert(next.drop_last() =~= done);
        let sec = &sections[i];
        if !sec.label_only {
            proof {
                lemma_image_len_bounds(views, i as int);
            }
            let start = sec.offset.0 as usize;
            let n = sec.memory.mem.len();
            let mut k: usize = 0;
            while k < n
                invariant
                    k <= n,
                    n == sec.memory.mem.len(),
                    sec@ == views[i as int],
                    emits(sec@),
                    sec@.length == Some(n as u64),
                    start == sec.offset.0,
                    start + n <= total,
                    out.len() == total,
                    next.drop_last() == done,
                    next.last() == sec@,
                    out@ == Seq::new(
                        total as nat,
                        |p: int|
                            if start <= p < start + k {
                                sec@.mem[p - start]
                            } else {
                                byte_at(done, p)
                            },
                    ),
                decreases n - k,
            {
                out[start + k] = sec.memory.mem[k];
                k += 1;
            }
        }
        i += 1;
    }
    assert(views.take(sections.len() as int) =~= views);
    Ok(out)
}

} // verus!
