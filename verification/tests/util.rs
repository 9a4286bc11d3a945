use sdr_pipeline::util::BufferBank;

#[test]
fn test_bank_roles_alternate() {
    let mut bank = BufferBank::<i64>::new();
    {
        let (src, dst) = bank.swap();
        assert!(src.is_empty());
        dst.push(1);
        dst.push(2);
    }
    {
        // What was written through dst is now the source.
        let (src, dst) = bank.swap();
        assert_eq!(&vec![1, 2], src);
        dst.clear();
        dst.push(3);
    }
    {
        let (src, _dst) = bank.swap();
        assert_eq!(&vec![3], src);
    }
}

#[test]
fn test_bank_ping_pong_pipeline_step() {
    // One pipeline step: read the source, write a transform into the
    // destination, and find it as the source of the next step.
    let mut bank = BufferBank::<i64>::new();
    {
        let (_src, dst) = bank.swap();
        dst.extend_from_slice(&[10, 20, 30]);
    }
    {
        let (src, dst) = bank.swap();
        dst.clear();
        for v in src.iter() {
            dst.push(v + 1);
        }
    }
    let (src, _dst) = bank.swap();
    assert_eq!(&vec![11, 21, 31], src);
}
