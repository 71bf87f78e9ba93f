use kata_threadpool::anagrams::{get_letter_frequency, group_anagrams, LetterFrequency};

#[test]
fn given_word_generate_correct_frequency_vector() {
    let mut zeros = [0_u32; 26];
    zeros[..3].copy_from_slice(&[1, 2, 3]);
    assert_eq!(get_letter_frequency("abbccc").0, zeros);
}

#[test]
fn given_list_of_anagrams_produce_list_of_grouped_word_sets() {
    let words = vec!["word", "sword", "drow", "rowd", "iced", "dice"];
    let mut expected = vec![
        vec!["word", "drow", "rowd"],
        vec!["sword"],
        vec!["iced", "dice"],
    ];
    expected.sort();
    // Groups come in an order the caller should not rely on; compare them
    // sorted, as the expected list is.
    let mut groups = group_anagrams(&words);
    groups.sort();
    assert_eq!(groups, expected);
}

#[test]
fn groups_come_in_order_of_first_word() {
    let words = vec!["word", "sword", "drow", "rowd", "iced", "dice"];
    assert_eq!(
        group_anagrams(&words),
        vec![vec!["word", "drow", "rowd"], vec!["sword"], vec!["iced", "dice"]]
    );
    assert!(group_anagrams(&[]).is_empty());
}

#[test]
fn case_is_ignored_and_non_letters_are_not_counted() {
    let f = get_letter_frequency("AbZ z1!");
    let mut expected = [0_u32; 26];
    expected[0] = 1;
    expected[1] = 1;
    expected[25] = 2;
    assert_eq!(f.0, expected);
    assert_eq!(group_anagrams(&["Listen", "silent", "enlist!", "tinsel"]).len(), 1);
}

#[test]
fn key_spells_each_count_after_a_hash() {
    let key = get_letter_frequency("abb").to_key();
    let chars: Vec<char> = key.chars().collect();
    assert_eq!(chars.len(), 52);
    assert_eq!(chars[0], '#');
    assert_eq!(chars[1] as u32, 1);
    assert_eq!(chars[3] as u32, 2);
    assert_eq!(chars[5] as u32, 0);
    assert_eq!(LetterFrequency::default().0, [0_u32; 26]);
}
