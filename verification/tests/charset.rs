use ripeg::charset::CharSet;
use ripeg::charset::NormalSet;
use ripeg::charset::SmallSet;

fn members_of(s: &NormalSet) -> Vec<u8> {
    let mut found = Vec::new();
    for b in 0..=255u8 {
        if s.has(b) {
            found.push(b);
        }
    }
    found
}

#[test]
fn normal_set_new_has_and_size() {
    let s = NormalSet::new(&[67, 68, 69]);
    assert_eq!(s.has(67), true);
    assert_eq!(s.has(66), false);
    assert_eq!(s.size(), 3);
}

#[test]
fn normal_set_holds_upper_half() {
    let s = NormalSet::new(&[67u8, 68, 69, 247]);
    assert_eq!(s.has(66), false);
    assert_eq!(s.has(67), true);
    assert_eq!(s.has(246), false);
    assert_eq!(s.has(247), true);
    assert_eq!(s.size(), 4);
}

#[test]
fn normal_set_boundaries() {
    let s = NormalSet::new(&[0, 127, 128, 255]);
    assert!(s.has(0));
    assert!(s.has(127));
    assert!(s.has(128));
    assert!(s.has(255));
    assert!(!s.has(1));
    assert!(!s.has(126));
    assert!(!s.has(129));
    assert!(!s.has(254));
    assert_eq!(s.size(), 4);
}

#[test]
fn new_of_nothing_is_empty() {
    let s = NormalSet::new(&[]);
    assert_eq!(s.size(), 0);
    assert_eq!(members_of(&s), Vec::<u8>::new());
    let t = SmallSet::new(&[]);
    assert_eq!(t.size(), 0);
}

#[test]
fn new_collapses_duplicates_and_ignores_order() {
    let s = NormalSet::new(&[9, 3, 9, 200, 3, 3, 200, 0]);
    assert_eq!(s.size(), 4);
    assert_eq!(members_of(&s), vec![0, 3, 9, 200]);
    let t = SmallSet::new(&[5, 5, 1, 5, 1]);
    assert_eq!(t.size(), 2);
}

#[test]
fn small_set_new_has_and_size() {
    let s = SmallSet::new(&[67u8, 68, 69]);
    assert_eq!(s.has(66), false);
    assert_eq!(s.has(67), true);
    assert_eq!(s.size(), 3);
}

#[test]
fn small_set_has_out_of_domain_is_false() {
    let s = SmallSet::new(&[67, 68, 69]);
    assert_eq!(s.has(250), false);
    assert_eq!(s.has(128), false);
    assert_eq!(s.has(255), false);
}

#[test]
fn small_set_boundaries() {
    let s = SmallSet::new(&[0, 127]);
    assert!(s.has(0));
    assert!(s.has(127));
    assert!(!s.has(1));
    assert!(!s.has(126));
    assert_eq!(s.size(), 2);
}

#[test]
fn add_is_union() {
    let mut s = NormalSet::new(&[67u8, 68, 69, 247]);
    let s2 = NormalSet::new(&[65u8, 66, 247]);
    s.add(s2);
    assert_eq!(s.size(), 6);
    assert_eq!(members_of(&s), vec![65, 66, 67, 68, 69, 247]);
}

#[test]
fn add_of_empty_changes_nothing() {
    let mut s = NormalSet::new(&[1, 2, 3]);
    s.add(NormalSet::new(&[]));
    assert_eq!(members_of(&s), vec![1, 2, 3]);
}

#[test]
fn complement_size() {
    let s = NormalSet::new(&[67u8, 68, 69, 247]);
    let s2 = s.complement();
    assert_eq!(s2.size(), 252);
    assert!(!s2.has(67));
    assert!(!s2.has(247));
    assert!(s2.has(66));
    assert!(s2.has(0));
    assert!(s2.has(255));
}

#[test]
fn complement_of_empty_is_everything() {
    let s = NormalSet::new(&[]).complement();
    assert_eq!(s.size(), 256);
    assert_eq!(s.complement().size(), 0);
}

#[test]
fn complement_twice_is_identity() {
    let s = NormalSet::new(&[0, 5, 6, 7, 127, 128, 200, 255]);
    let back = s.complement().complement();
    assert_eq!(members_of(&back), members_of(&s));
    assert_eq!(back.size(), s.size());
    assert_eq!(back.string(), s.string());
}

#[test]
fn complement_size_adds_up_for_ranges() {
    for high in [0u8, 1, 100, 127, 128, 254, 255] {
        let s = NormalSet::range(0, high);
        assert_eq!(s.complement().size(), 256 - s.size());
    }
}

#[test]
fn is_small_examples() {
    let s = NormalSet::new(&[67u8, 68, 69, 247]);
    let s2 = NormalSet::new(&[65u8, 127]);
    assert_eq!(s.is_small(), false);
    assert_eq!(s2.is_small(), true);
    assert_eq!(NormalSet::new(&[128]).is_small(), false);
    assert_eq!(NormalSet::new(&[255]).is_small(), false);
    assert_eq!(NormalSet::new(&[]).is_small(), true);
}

#[test]
fn range_of_digits() {
    let s = NormalSet::range(48, 57);
    assert_eq!(s.size(), 10);
    assert_eq!(s.is_small(), true);
    assert_eq!(s.has(47), false);
    assert_eq!(s.has(48), true);
    assert_eq!(s.has(52), true);
    assert_eq!(s.has(57), true);
    assert_eq!(s.has(58), false);
}

#[test]
fn range_sizes() {
    assert_eq!(NormalSet::range(0, 255).size(), 256);
    assert_eq!(NormalSet::range(0, 0).size(), 1);
    assert_eq!(NormalSet::range(255, 255).size(), 1);
    assert_eq!(NormalSet::range(100, 199).size(), 100);
    assert_eq!(NormalSet::range(127, 128).size(), 2);
}

#[test]
fn range_of_one_value_is_a_singleton() {
    let s = NormalSet::range(77, 77);
    assert_eq!(members_of(&s), vec![77]);
}

#[test]
fn range_with_low_above_high_is_empty() {
    let s = NormalSet::range(58, 47);
    assert_eq!(s.size(), 0);
    assert_eq!(members_of(&s), Vec::<u8>::new());
    assert_eq!(NormalSet::range(255, 0).size(), 0);
}

#[test]
fn smallset_drops_upper_half() {
    let s = NormalSet::range(120, 130);
    let s2 = s.smallset();
    assert_eq!(s.size(), 11);
    assert_eq!(s.is_small(), false);
    assert_eq!(s.has(119), false);
    assert_eq!(s.has(120), true);
    assert_eq!(s.has(130), true);
    assert_eq!(s.has(131), false);
    assert_eq!(s2.size(), 8);
    assert_eq!(s2.has(119), false);
    assert_eq!(s2.has(120), true);
    assert_eq!(s2.has(127), true);
    assert_eq!(s2.has(128), false);
    assert_eq!(s2.has(131), false);
}

#[test]
fn smallset_keeps_size_exactly_when_small() {
    let sets = [
        NormalSet::new(&[]),
        NormalSet::new(&[0, 127]),
        NormalSet::new(&[128]),
        NormalSet::range(100, 140),
        NormalSet::range(0, 127),
        NormalSet::range(0, 255),
    ];
    for s in sets.iter() {
        assert_eq!(s.is_small(), s.smallset().size() == s.size());
    }
}

#[test]
fn sub_is_difference() {
    let s = NormalSet::range(120, 130);
    let s2 = NormalSet::range(125, 127);
    let s3 = s.sub(s2);
    assert_eq!(s3.size(), 11 - 3);
    assert_eq!(s3.is_small(), false);
    assert_eq!(s3.has(119), false);
    assert_eq!(s3.has(120), true);
    assert_eq!(s3.has(124), true);
    assert_eq!(s3.has(125), false);
    assert_eq!(s3.has(127), false);
    assert_eq!(s3.has(128), true);
    assert_eq!(s3.has(130), true);
    assert_eq!(s3.has(131), false);
    assert_eq!(s.size(), 11);
}

#[test]
fn sub_of_disjoint_set_changes_nothing() {
    let s = NormalSet::range(120, 130);
    let s4 = NormalSet::range(110, 119);
    let s5 = s.sub(s4);
    assert_eq!(s5.size(), 11);
    assert_eq!(s5.is_small(), false);
    assert_eq!(s5.has(109), false);
    assert_eq!(s5.has(110), false);
    assert_eq!(s5.has(119), false);
    assert_eq!(s5.has(120), true);
    assert_eq!(members_of(&s5), members_of(&s));
}

#[test]
fn sub_never_grows() {
    let s = NormalSet::new(&[1, 2, 3, 200]);
    assert_eq!(s.sub(NormalSet::new(&[2, 200, 201])).size(), 2);
    assert_eq!(s.sub(NormalSet::range(0, 255)).size(), 0);
    assert_eq!(s.sub(NormalSet::new(&[])).size(), 4);
}

#[test]
fn size_is_sum_of_has() {
    let s = NormalSet::new(&[0, 1, 2, 64, 127, 128, 129, 255]);
    let mut sum = 0;
    for b in 0..=255u8 {
        if s.has(b) {
            sum += 1;
        }
    }
    assert_eq!(sum, s.size());
    let t = SmallSet::new(&[0, 1, 2, 64, 127]);
    let mut small_sum = 0;
    for b in 0..128u8 {
        if t.has(b) {
            small_sum += 1;
        }
    }
    assert_eq!(small_sum, t.size());
}

#[test]
fn string_of_two_runs() {
    let mut s = NormalSet::range(120, 130);
    let s2 = NormalSet::range(110, 115);
    s.add(s2);
    let output = s.string();
    assert_eq!(output, "{110..116,120..131}");
}

#[test]
fn string_of_empty_set() {
    assert_eq!(NormalSet::new(&[]).string(), "{}");
}

#[test]
fn string_of_single_members() {
    assert_eq!(NormalSet::new(&[7]).string(), "{7}");
    assert_eq!(NormalSet::new(&[0]).string(), "{0}");
    assert_eq!(NormalSet::new(&[3, 70, 254]).string(), "{3,70,254}");
}

#[test]
fn string_of_mixed_runs() {
    assert_eq!(NormalSet::new(&[0, 1, 5, 9, 10, 11, 100]).string(), "{0..2,5,9..12,100}");
    assert_eq!(NormalSet::range(253, 254).string(), "{253..255}");
}

#[test]
fn string_marks_the_upper_edge() {
    assert_eq!(NormalSet::new(&[255]).string(), "{\u{ff}}");
    assert_eq!(NormalSet::range(250, 255).string(), "{250..\u{ff}}");
    assert_eq!(NormalSet::new(&[10, 255]).string(), "{10,\u{ff}}");
    assert_eq!(NormalSet::range(0, 255).string(), "{0..\u{ff}}");
}
