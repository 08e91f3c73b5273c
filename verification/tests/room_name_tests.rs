use vlawn::room_name::{random_room_name, room_name_from, WORD_CHOICES};

#[test]
fn name_from_first_indices() {
    assert_eq!(room_name_from(0, 0, 0), "arcane-memory-hoping");
}

#[test]
fn name_from_mixed_indices() {
    assert_eq!(room_name_from(1, 3, 7), "mossy-ember-listening");
}

#[test]
fn names_have_three_dash_joined_parts() {
    for i in 0..WORD_CHOICES {
        for j in 0..WORD_CHOICES {
            for k in 0..WORD_CHOICES {
                let name = room_name_from(i, j, k);
                assert_eq!(name.split('-').count(), 3);
            }
        }
    }
}

#[test]
fn random_name_comes_from_the_vocabularies() {
    for _ in 0..32 {
        let name = random_room_name();
        let mut found = false;
        for i in 0..WORD_CHOICES {
            for j in 0..WORD_CHOICES {
                for k in 0..WORD_CHOICES {
                    if room_name_from(i, j, k) == name {
                        found = true;
                    }
                }
            }
        }
        assert!(found, "unexpected room name: {name}");
    }
}
