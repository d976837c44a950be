use ethvm::stack::{Stack, StackError};

#[test]
fn size() {
    let mut stack = Stack::default();
    {
        let data = [0u8; 33];
        let _ = stack.push(&data[..]);
        assert_eq!(stack.size(), 0);
    }
    let data = [0u8; 32];
    {
        assert_eq!(stack.size(), 0);
        for i in 1..=1024 {
            let _ = stack.push(&data[..]);
            assert_eq!(stack.size(), i);
        }
        let _ = stack.push(&data[..]);
        assert_eq!(stack.size(), 1024);
        for i in (0..=1023).rev() {
            let _ = stack.pop();
            assert_eq!(stack.size(), i);
        }
        let _ = stack.pop();
        assert_eq!(stack.size(), 0);
    }
    {
        let mut expected = 0;
        let _ = stack.push(&data[..]);
        expected += 1;
        assert_eq!(stack.size(), expected);
        let _ = stack.dup(0);
        assert_eq!(stack.size(), expected);
        for i in 1..=16 {
            let _ = stack.dup(i);
            expected += 1;
            assert_eq!(stack.size(), expected);
        }
        let _ = stack.dup(17);
        assert_eq!(stack.size(), expected);
    }
    {
        let expected = stack.size();
        for i in 1..=16 {
            let _ = stack.swap(i);
            assert_eq!(stack.size(), expected);
        }
    }
}

#[test]
fn push_limit() {
    let mut stack = Stack::default();
    let data = [0u8; 33];
    assert!(stack.push(&data[..]).is_err());
    let data = [0u8; 32];
    for _ in 0..1024 {
        assert!(stack.push(&data[..]).is_ok());
    }
    assert!(stack.push(&data[..]).is_err());
}

#[test]
fn push() {
    let mut stack = Stack::default();
    for i in 1u8..=16 {
        let data = [(16 - i) * 0x11; 32];
        let size = stack.size();
        let _ = stack.push(&data[..]);
        assert_eq!(stack.size(), size + 1);
        assert_eq!(stack.peek().unwrap(), &data[..]);
    }
}

#[test]
fn pop_limit() {
    let mut stack = Stack::default();
    let data = [0u8; 32];
    for _ in 0..1024 {
        let _ = stack.push(&data[..]);
    }
    for _ in 0..1024 {
        assert!(stack.pop().is_ok());
    }
    assert!(stack.pop().is_err());
}

#[test]
fn pop() {
    let mut stack = Stack::default();
    for i in 1u8..=16 {
        let data = [(16 - i) * 0x11; 32];
        let _ = stack.push(&data[..]);
    }
    for i in 1u8..=16 {
        let data = [(i - 1) * 0x11; 32];
        let size = stack.size();
        let popped = stack.pop().unwrap();
        assert_eq!(stack.size(), size - 1);
        assert_eq!(popped, data);
    }
}

#[test]
fn back() {
    let mut stack = Stack::default();
    assert!(stack.back(0).is_err());
    for i in 1u8..=16 {
        let data = [(16 - i) * 0x11; 32];
        let _ = stack.push(&data[..]);
        for j in 0..(i - 1) {
            assert!(stack.back(j as usize).is_ok());
        }
        assert!(stack.back(i as usize).is_err());
    }
    for i in 0u8..=15 {
        let data = [i * 0x11; 32];
        assert_eq!(stack.back(i as usize).unwrap(), &data[..]);
    }
    assert!(stack.back(16).is_err());
}

#[test]
fn peek() {
    let mut stack = Stack::default();
    assert!(stack.peek().is_err());
    for i in 1u8..=16 {
        let data = [(16 - i) * 0x11; 32];
        let _ = stack.push(&data[..]);
        assert_eq!(stack.peek().unwrap(), &data[..]);
    }
    for i in 1u8..=16 {
        let data = [(i - 1) * 0x11; 32];
        assert_eq!(stack.peek().unwrap(), &data[..]);
        let _ = stack.pop().unwrap();
    }
}

#[test]
fn dup_limit() {
    let mut stack = Stack::default();
    assert!(stack.dup(1).is_err());
    let data = [0u8; 32];
    let _ = stack.push(&data[..]);
    for i in 1..=16 {
        assert!(stack.dup(0).is_err());
        for j in i + 1..=17 {
            assert!(stack.dup(j).is_err());
        }
        assert!(stack.dup(i).is_ok());
    }
}

#[test]
fn dup() {
    let mut stack = Stack::default();
    for i in 1u8..=16 {
        let data = [(16 - i) * 0x11; 32];
        let _ = stack.push(&data[..]);
    }
    for i in 1u8..=16 {
        let size = stack.size();
        let _ = stack.dup(i as usize);
        assert_eq!(stack.size(), size + 1);
        let data = [(i - 1) * 0x11; 32];
        let popped = stack.pop().unwrap();
        assert_eq!(popped, data);
    }
}

#[test]
fn swap_limit() {
    let mut stack = Stack::default();
    let data = [0u8; 32];
    for i in 0u8..=17 {
        assert!(stack.swap(i as usize).is_err());
    }
    let _ = stack.push(&data[..]);
    for i in 0u8..=17 {
        assert!(stack.swap(i as usize).is_err());
    }
    for i in 1..=16 {
        let _ = stack.push(&data[..]);
        assert!(stack.swap(0).is_err());
        for j in 1..=i {
            assert!(stack.swap(j).is_ok());
        }
        for j in i + 1..=17 {
            assert!(stack.swap(j).is_err());
        }
    }
}

#[test]
fn swap() {
    let mut stack = Stack::default();
    let data = [0u8; 32];
    let _ = stack.push(&data[..]);
    for i in 1u8..=16 {
        let data = [(16 - i) * 0x11; 32];
        let _ = stack.push(&data[..]);
    }
    let size = stack.size();
    for i in 1u8..=15 {
        let data = [i * 0x11; 32];
        let _ = stack.swap(i as usize);
        assert_eq!(stack.size(), size);
        assert_eq!(stack.peek().unwrap(), &data[..]);
    }
    let _ = stack.swap(16);
    assert_eq!(stack.size(), size);
    assert_eq!(stack.peek().unwrap(), &data[..]);
}

#[test]
fn error_kinds() {
    let mut stack = Stack::default();
    let long = [0u8; 33];
    assert_eq!(stack.push(&long[..]), Err(StackError::Internal));
    assert_eq!(stack.pop().unwrap_err(), StackError::Underflow);
    assert_eq!(stack.back(0).unwrap_err(), StackError::Underflow);
    assert_eq!(stack.peek().unwrap_err(), StackError::Underflow);
    assert_eq!(stack.dup(0), Err(StackError::Internal));
    assert_eq!(stack.dup(17), Err(StackError::Internal));
    assert_eq!(stack.swap(0), Err(StackError::Internal));
    assert_eq!(stack.swap(17), Err(StackError::Internal));
    let word = [7u8; 32];
    assert_eq!(stack.push(&word[..]), Ok(()));
    assert_eq!(stack.swap(1), Err(StackError::Underflow));
    assert_eq!(stack.dup(2), Err(StackError::Underflow));
    for _ in 1..1024 {
        assert_eq!(stack.push(&word[..]), Ok(()));
    }
    assert_eq!(stack.size(), 1024);
    assert_eq!(stack.push(&word[..]), Err(StackError::Overflow));
    assert_eq!(stack.dup(1), Err(StackError::Overflow));
}

#[test]
fn push_pads_short_input_on_the_left() {
    let mut stack = Stack::default();
    assert_eq!(stack.push(&[0xab, 0xcd][..]), Ok(()));
    let mut expected = [0u8; 32];
    expected[30] = 0xab;
    expected[31] = 0xcd;
    assert_eq!(stack.peek().unwrap(), &expected[..]);
    assert_eq!(stack.push(&[][..]), Ok(()));
    assert_eq!(stack.peek().unwrap(), &[0u8; 32][..]);
}

#[test]
fn dup_then_pop_matches_back() {
    let mut stack = Stack::default();
    for i in 0u8..8 {
        let word = [i; 32];
        let _ = stack.push(&word[..]);
    }
    for n in 1..=8 {
        let before: Vec<u8> = stack.back(n - 1).unwrap().to_vec();
        assert_eq!(stack.dup(n), Ok(()));
        let popped = stack.pop().unwrap();
        assert_eq!(&popped[..], &before[..]);
    }
}

#[test]
fn swap_preserves_other_slots() {
    let mut stack = Stack::default();
    for i in 0u8..8 {
        let word = [i; 32];
        let _ = stack.push(&word[..]);
    }
    let before: Vec<Vec<u8>> = (0..8).map(|d| stack.back(d).unwrap().to_vec()).collect();
    assert_eq!(stack.swap(3), Ok(()));
    assert_eq!(stack.size(), 8);
    for d in 0..8 {
        let now = stack.back(d).unwrap();
        if d == 0 {
            assert_eq!(now, &before[3][..]);
        } else if d == 3 {
            assert_eq!(now, &before[0][..]);
        } else {
            assert_eq!(now, &before[d][..]);
        }
    }
}
