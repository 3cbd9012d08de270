use txt_sectumsempra::names::base_name;
use txt_sectumsempra::names::chunk_file_name;
use txt_sectumsempra::names::output_dir_name;

#[test]
fn test_output_directory_format() {
    let input_name = "format_test_1_mb.txt";
    let base = base_name(input_name);
    println!("Base name: {}", base);
    assert_eq!(base, "format_test_1_mb");

    let dir_name = output_dir_name(&base, 1234567890);
    println!("Directory name: {}", dir_name);
    assert!(dir_name.starts_with(&format!("{}-", base)));
    assert!(dir_name.split('-').nth(1).unwrap().parse::<u64>().is_ok());

    let chunk_name = chunk_file_name(&base, 0);
    println!("Chunk name: {}", chunk_name);
    assert!(chunk_name.starts_with(&format!("{}-part-", base)));
    let parts: Vec<&str> = chunk_name.split('-').collect();
    println!("Chunk name parts: {:?}", parts);
    assert!(parts.last().unwrap().split('.').next().unwrap().parse::<usize>().is_ok());
}

#[test]
fn test_base_name_rules() {
    // Stem before the first dot, truncated to at most 20 characters.
    assert_eq!(base_name("abcdefghijklmnopqrstuvwxyz.txt"), "abcdefghijklmnopqrst");
    assert_eq!(base_name("noext"), "noext");
    assert_eq!(base_name("a.b.c"), "a");
    assert_eq!(base_name(".hidden"), "");
    assert_eq!(base_name(""), "");
}

#[test]
fn test_chunk_file_name_unpadded() {
    assert_eq!(chunk_file_name("base", 0), "base-part-0.txt");
    assert_eq!(chunk_file_name("base", 10), "base-part-10.txt");
    assert_eq!(chunk_file_name("base", 907), "base-part-907.txt");
    assert_eq!(output_dir_name("base", 42), "base-42");
    assert_eq!(output_dir_name("base", 1700000000), "base-1700000000");
}
