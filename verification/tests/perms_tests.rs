use nanokit::{Perms, PermsTryFromError};

struct TestCase<'a> {
    perms: Perms,
    literal: u32,
    display: &'a str,
}

#[test]
fn perms() {
    let mut cases = Vec::new();

    cases.push(TestCase {
        perms: Perms::try_from(Perms::NONE).unwrap(),
        literal: 0,
        display: "---------",
    });

    cases.push(TestCase {
        perms: Perms::try_from(Perms::OWNER_READ | Perms::GROUP_READ | Perms::OTHERS_READ)
            .unwrap(),
        literal: 0o444,
        display: "r--r--r--",
    });

    cases.push(TestCase {
        perms: Perms::try_from(Perms::OWNER_WRITE | Perms::GROUP_WRITE | Perms::OTHERS_WRITE)
            .unwrap(),
        literal: 0o222,
        display: "-w--w--w-",
    });

    cases.push(TestCase {
        perms: Perms::try_from(Perms::OWNER_EXEC | Perms::GROUP_EXEC | Perms::OTHERS_EXEC)
            .unwrap(),
        literal: 0o111,
        display: "--x--x--x",
    });

    cases.push(TestCase {
        perms: Perms::try_from(Perms::OWNER_READ | Perms::OWNER_WRITE | Perms::OWNER_EXEC)
            .unwrap(),
        literal: 0o700,
        display: "rwx------",
    });

    cases.push(TestCase {
        perms: Perms::try_from(Perms::GROUP_READ | Perms::GROUP_WRITE | Perms::GROUP_EXEC)
            .unwrap(),
        literal: 0o70,
        display: "---rwx---",
    });

    cases.push(TestCase {
        perms: Perms::try_from(Perms::OTHERS_READ | Perms::OTHERS_WRITE | Perms::OTHERS_EXEC)
            .unwrap(),
        literal: 0o7,
        display: "------rwx",
    });

    cases.push(TestCase {
        perms: Perms::try_from(Perms::ALL).unwrap(),
        literal: 0o777,
        display: "rwxrwxrwx",
    });

    cases.push(TestCase {
        perms: Perms::try_from(Perms::ALL | Perms::SET_UID | Perms::SET_GID | Perms::STICKY_BIT)
            .unwrap(),
        literal: 0o7777,
        display: "rwsrwsrwt",
    });

    cases.push(TestCase {
        perms: Perms::try_from(Perms::SET_UID | Perms::SET_GID | Perms::STICKY_BIT).unwrap(),
        literal: 0o7000,
        display: "--S--S--T",
    });

    for TestCase {
        perms,
        literal,
        display,
    } in cases.into_iter()
    {
        assert_eq!(
            perms,
            Perms::try_from(literal).expect(display),
            "{}",
            display
        );
        assert_eq!(&perms.to_string(), display, "{}", display);
    }
}

#[test]
fn perms_is_valid() {
    assert!(Perms::is_valid(0));
    assert!(Perms::is_valid(0o644));
    assert!(Perms::is_valid(0o7777));
    assert!(!Perms::is_valid(0o10000));
    assert!(!Perms::is_valid(u32::MAX));
}

#[test]
fn perms_try_from_rejects_extra_bits() {
    assert_eq!(Perms::try_from(0o20000), Err(PermsTryFromError));
    assert_eq!(Perms::try_from(0o644).map(Perms::to_u32), Ok(0o644));
}

#[test]
fn perms_bit_operators() {
    let owner = Perms::try_from(Perms::OWNER_ALL).unwrap();
    let group = Perms::try_from(Perms::GROUP_ALL).unwrap();
    let both = owner | group;
    assert_eq!(both.to_u32(), 0o770);
    assert_eq!((both & owner).to_u32(), 0o700);
    assert_eq!((both ^ owner).to_u32(), 0o70);
    assert_eq!(&both.to_string(), "rwxrwx---");
}
