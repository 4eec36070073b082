use vstd::prelude::*;

verus! {

/// The index of the first entry equal to `cur`, or -1 when there is none.
pub open spec fn spec_find_path(images: Seq<String>, cur: Seq<char>) -> int
    decreases images.len(),
{
    if images.len() == 0 {
        -1
    } else if images[0]@ == cur {
        0
    } else {
        let r = spec_find_path(images.drop_first(), cur);
        if r == -1 {
            -1
        } else {
            r + 1
        }
    }
}

pub proof fn lemma_spec_find_path_correct(images: Seq<String>, cur: Seq<char>)
    ensures
        spec_find_path(images, cur) == -1 ==> forall|i: int|
            0 <= i < images.len() ==> images[i]@ != cur,
        spec_find_path(images, cur) != -1 ==> {
            let ix = spec_find_path(images, cur);
            &&& 0 <= ix < images.len()
            &&& images[ix]@ == cur
            &&& forall|i: int| 0 <= i < ix ==> images[i]@ != cur
        },
    decreases images.len(),
{
    if images.len() > 0 {
        lemma_spec_find_path_correct(images.drop_first(), cur);
        assert forall|i: int| 1 <= i < images.len() implies images[i]
            == images.drop_first()[i - 1] by {}
    }
}

/// What moving one picture forward returns: nothing when navigation is off
/// or the current picture is not in the list, and otherwise the following
/// entry, wrapping from the last back to the first.
pub open spec fn spec_next_image(images: Seq<String>, cur: Seq<char>, enabled: bool) -> Option<
    Seq<char>,
> {
    let ix = spec_find_path(images, cur);
    if !enabled || ix == -1 {
        Option::None
    } else {
        Option::Some(images[(ix + 1) % images.len() as int]@)
    }
}

/// What moving one picture back returns: nothing when navigation is off or
/// the current picture is not in the list, and otherwise the preceding
/// entry, wrapping from the first to the last.
pub open spec fn spec_previous_image(images: Seq<String>, cur: Seq<char>, enabled: bool) -> Option<
    Seq<char>,
> {
    let ix = spec_find_path(images, cur);
    if !enabled || ix == -1 {
        Option::None
    } else if ix == 0 {
        Option::Some(images[images.len() - 1]@)
    } else {
        Option::Some(images[ix - 1]@)
    }
}

/// Finds the first entry equal to `cur`.
fn find_path(images: &Vec<String>, cur: &str) -> (r: Option<usize>)
    ensures
        r is Some ==> r->0 == spec_find_path(images@, cur@) && r->0 < images@.len(),
        r is None ==> spec_find_path(images@, cur@) == -1,
{
    let cur_string = cur.to_owned();
    let mut i: usize = 0;
    while i < images.len()
        invariant
            cur_string@ == cur@,
            i <= images@.len(),
            forall|j: int| 0 <= j < i ==> images@[j]@ != cur@,
        decreases images@.len() - i,
    {
        if images[i] == cur_string {
            proof {
                lemma_find_path_at(images@, cur@, i as int);
            }
            return Some(i);
        }
        i = i + 1;
    }
    proof {
        lemma_find_path_none(images@, cur@);
    }
    None
}

proof fn lemma_find_path_at(images: Seq<String>, cur: Seq<char>, i: int)
    requires
        0 <= i < images.len(),
        images[i]@ == cur,
        forall|j: int| 0 <= j < i ==> images[j]@ != cur,
    ensures
        spec_find_path(images, cur) == i,
    decreases i,
{
    if i > 0 {
        assert forall|j: int| 0 <= j < i - 1 implies images.drop_first()[j]@ != cur by {
            assert(images.drop_first()[j] == images[j + 1]);
        }
        assert(images.drop_first()[i - 1] == images[i]);
        lemma_find_path_at(images.drop_first(), cur, i - 1);
    }
}

proof fn lemma_find_path_none(images: Seq<String>, cur: Seq<char>)
    requires
        forall|j: int| 0 <= j < images.len() ==> images[j]@ != cur,
    ensures
        spec_find_path(images, cur) == -1,
    decreases images.len(),
{
    if images.len() > 0 {
        assert forall|j: int|
            0 <= j < images.drop_first().len() implies images.drop_first()[j]@ != cur by {
            assert(images.drop_first()[j] == images[j + 1]);
        }
        lemma_find_path_none(images.drop_first(), cur);
    }
}

/// Steps to the picture after `current_path` in the folder's image list,
/// wrapping around at the end. The caller supplies the folder's images in
/// display order.
pub fn get_next_image(images: &Vec<String>, current_path: &str, folder_navigation_enabled: bool) -> (
    r: Option<String>)
    ensures
        (match r {
            Option::Some(s) => Option::Some(s@),
            Option::None => Option::None,
        }) == spec_next_image(images@, current_path@, folder_navigation_enabled),
{
    if !folder_navigation_enabled {
        return None;
    }
    match find_path(images, current_path) {
        Some(ix) => {
            proof {
                assert(images.len() == images@.len());
            }
            let next_index = if ix + 1 == images.len() {
                0
            } else {
                ix + 1
            };
            proof {
                let n = images@.len() as int;
                assert((ix + 1) % n == next_index as int) by (nonlinear_arith)
                    requires
                        0 <= ix < n,
                        next_index == (if ix + 1 == n {
                            0int
                        } else {
                            ix + 1
                        }),
                ;
            }
            Some(images[next_index].clone())
        },
        None => None,
    }
}

/// Steps to the picture before `current_path` in the folder's image list,
/// wrapping around at the start. The caller supplies the folder's images in
/// display order.
pub fn get_previous_image(
    images: &Vec<String>,
    current_path: &str,
    folder_navigation_enabled: bool,
) -> (r: Option<String>)
    ensures
        (match r {
            Option::Some(s) => Option::Some(s@),
            Option::None => Option::None,
        }) == spec_previous_image(images@, current_path@, folder_navigation_enabled),
{
    if !folder_navigation_enabled {
        return None;
    }
    match find_path(images, current_path) {
        Some(ix) => {
            let prev_index = if ix == 0 {
                images.len() - 1
            } else {
                ix - 1
            };
            Some(images[prev_index].clone())
        },
        None => None,
    }
}

} // verus!
