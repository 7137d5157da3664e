use bytelink::bytechannel::{
    byte_channel, read_progress, write_progress, ByteArray, ByteMode, ByteReader, ByteWriter,
    ReadError, ReadProgress, WriteError, WriteProgress,
};
use bytes::BytesMut;

/// Reads, waiting for bytes.
async fn read_async(reader: &mut ByteReader) -> Result<BytesMut, ReadError> {
    loop {
        match reader.read_step() {
            ReadProgress::Finished(result) => return result,
            ReadProgress::Wait => reader.changes().notified().await,
        }
    }
}

/// Writes, waiting for room.
async fn write_async(writer: &mut ByteWriter, data: BytesMut) -> Result<(), WriteError> {
    let mut data = data;
    loop {
        match writer.write_step(data) {
            WriteProgress::Finished(result) => return result,
            WriteProgress::Wait(rest) => data = rest,
        }
        writer.changes().notified().await;
    }
}

fn runtime() -> tokio::runtime::Runtime {
    tokio::runtime::Builder::new_current_thread()
        .build()
        .unwrap()
}

#[test]
fn byte_channel_try() {
    let (mut sender, mut receiver) = byte_channel(ByteMode::Restricted(4));

    assert_eq!(
        sender.write_sync("hello".as_bytes().into()),
        Err(WriteError::Full("o".as_bytes().into()))
    );

    assert_eq!(
        receiver.read_sync().unwrap(),
        BytesMut::from("hell".as_bytes())
    );
}

#[test]
fn byte_channel_async() {
    runtime().block_on(async {
        let (mut sender, mut receiver) = byte_channel(ByteMode::Restricted(4));

        let t = tokio::spawn(async move {
            let bytes = read_async(&mut receiver).await.unwrap();
            assert_eq!(&bytes[..], b"hell");
            let bytes = read_async(&mut receiver).await.unwrap();
            assert_eq!(&bytes[..], b"o");

            assert_eq!(receiver.read_sync(), Err(ReadError::Empty));
        });

        write_async(&mut sender, "hello".as_bytes().into())
            .await
            .unwrap();

        t.await.unwrap();

        assert!(sender.is_disconnected());
    });
}

#[test]
fn concurrent_read_write() {
    runtime().block_on(async {
        let (mut writer, mut reader) = byte_channel(ByteMode::Restricted(10));

        let write_task = tokio::spawn(async move {
            write_async(&mut writer, BytesMut::from("abc")).await?;
            Ok::<(), WriteError>(())
        });

        let read_task = tokio::spawn(async move {
            let data = read_async(&mut reader).await?;
            assert_eq!(data, BytesMut::from("abc"));
            Ok::<(), ReadError>(())
        });

        match write_task.await {
            Ok(Ok(())) => {}
            Ok(Err(WriteError::Disconnected(_))) => {}
            other => panic!("Unexpected write_task result: {:?}", other),
        }

        match read_task.await {
            Ok(Ok(())) => {}
            Ok(Err(ReadError::Disconnected)) => {}
            other => panic!("Unexpected read_task result: {:?}", other),
        }
    });
}

#[test]
fn empty_channel_reads_empty() {
    let (_sender, mut receiver) = byte_channel(ByteMode::Unrestricted);
    assert_eq!(receiver.read_sync(), Err(ReadError::Empty));
    assert!(!receiver.is_disconnected());
}

#[test]
fn disconnected_channel_hands_everything_back() {
    let (mut sender, mut receiver) = byte_channel(ByteMode::Restricted(8));
    assert_eq!(sender.write_sync("ab".as_bytes().into()), Ok(()));
    receiver.disconnect();
    assert!(sender.is_disconnected());
    assert_eq!(
        sender.write_sync("cd".as_bytes().into()),
        Err(WriteError::Disconnected("cd".as_bytes().into()))
    );
    assert_eq!(
        sender.write_sync(BytesMut::new()),
        Err(WriteError::Disconnected(BytesMut::new()))
    );
    assert_eq!(receiver.read_sync(), Err(ReadError::Disconnected));
}

#[test]
fn writer_disconnects_too() {
    let (mut sender, mut receiver) = byte_channel(ByteMode::Unrestricted);
    sender.disconnect();
    assert!(receiver.is_disconnected());
    assert!(sender.is_disconnected());
}

#[test]
fn end_that_disconnected_finds_the_channel_so() {
    let (mut sender, mut receiver) = byte_channel(ByteMode::Restricted(8));
    assert_eq!(sender.write_sync("ab".as_bytes().into()), Ok(()));
    receiver.disconnect();
    assert!(receiver.is_disconnected());
    assert!(receiver.clone().is_disconnected());
    assert!(matches!(
        receiver.read_step(),
        ReadProgress::Finished(Err(ReadError::Disconnected))
    ));

    let (mut sender, mut receiver) = byte_channel(ByteMode::Restricted(8));
    assert!(!sender.is_disconnected());
    sender.abandon();
    assert!(sender.is_disconnected());
    assert!(sender.clone().is_disconnected());
    assert!(receiver.is_disconnected());
    assert!(matches!(
        sender.write_step(BytesMut::from("cd")),
        WriteProgress::Finished(Err(WriteError::Disconnected(rest))) if rest == "cd"
    ));
}

#[test]
fn dropping_an_end_disconnects() {
    let (mut sender, receiver) = byte_channel(ByteMode::Restricted(8));
    assert_eq!(sender.write_sync("ab".as_bytes().into()), Ok(()));
    drop(receiver);
    assert!(sender.is_disconnected());
    assert_eq!(
        sender.write_sync("cd".as_bytes().into()),
        Err(WriteError::Disconnected("cd".as_bytes().into()))
    );

    let (sender, mut receiver) = byte_channel(ByteMode::Unrestricted);
    drop(sender);
    assert!(receiver.is_disconnected());
    assert_eq!(receiver.read_sync(), Err(ReadError::Disconnected));
}

#[test]
fn dropping_a_clone_disconnects_too() {
    let (mut sender, receiver) = byte_channel(ByteMode::Unrestricted);
    let copy = receiver.clone();
    let mut other = sender.clone();
    assert!(!sender.is_disconnected());
    drop(copy);
    let mut late = receiver.clone();
    assert!(late.is_disconnected());
    assert_eq!(
        sender.write_sync("x".as_bytes().into()),
        Err(WriteError::Disconnected("x".as_bytes().into()))
    );
    assert!(other.is_disconnected());
}

#[test]
fn all_ends_are_told_of_a_disconnection_for_good() {
    let (mut sender, mut receiver) = byte_channel(ByteMode::Restricted(8));
    let mut writing = sender.clone();
    let mut reading = receiver.clone();
    assert_eq!(writing.write_sync("abc".as_bytes().into()), Ok(()));
    assert!(!sender.is_disconnected());
    assert!(!reading.is_disconnected());
    reading.disconnect();
    for _ in 0..2 {
        assert!(sender.is_disconnected());
        assert!(writing.is_disconnected());
        assert!(receiver.is_disconnected());
        assert!(reading.is_disconnected());
        assert_eq!(receiver.read_sync(), Err(ReadError::Disconnected));
        assert_eq!(
            sender.write_sync("de".as_bytes().into()),
            Err(WriteError::Disconnected("de".as_bytes().into()))
        );
    }
}

#[test]
fn what_several_ends_read_is_what_several_ends_wrote() {
    let (mut sender, mut receiver) = byte_channel(ByteMode::Restricted(5));
    let mut writing = sender.clone();
    let mut reading = receiver.clone();
    let mut read: Vec<u8> = Vec::new();
    assert_eq!(sender.write_sync("abc".as_bytes().into()), Ok(()));
    assert_eq!(
        writing.write_sync("defg".as_bytes().into()),
        Err(WriteError::Full("fg".as_bytes().into()))
    );
    read.extend_from_slice(&reading.read_sync().unwrap());
    assert_eq!(sender.write_sync("fg".as_bytes().into()), Ok(()));
    read.extend_from_slice(&receiver.read_sync().unwrap());
    assert_eq!(reading.read_sync(), Err(ReadError::Empty));
    assert_eq!(&read[..], b"abcdefg");
}

#[test]
fn array_counts_its_ends() {
    let mut array = ByteArray::new();
    array.add_end();
    array.add_end();
    assert!(!array.lost_end(2));
    array.settle(2);
    assert!(!array.is_disconnected());
    assert!(array.lost_end(1));
    array.settle(1);
    assert!(array.is_disconnected());
}

#[test]
fn disconnecting_wakes_those_who_wait() {
    runtime().block_on(async {
        let (mut sender, mut receiver) = byte_channel(ByteMode::Restricted(4));
        let t = tokio::spawn(async move { read_async(&mut receiver).await });
        tokio::task::yield_now().await;
        sender.disconnect();
        assert_eq!(t.await.unwrap(), Err(ReadError::Disconnected));

        let (mut sender, mut receiver) = byte_channel(ByteMode::Restricted(1));
        let t = tokio::spawn(async move { write_async(&mut sender, BytesMut::from("ab")).await });
        tokio::task::yield_now().await;
        receiver.disconnect();
        assert_eq!(
            t.await.unwrap(),
            Err(WriteError::Disconnected(BytesMut::from("b")))
        );
    });
}

#[test]
fn clones_are_ends_of_the_same_channel() {
    let (sender, mut receiver) = byte_channel(ByteMode::Unrestricted);
    let mut other = sender.clone();
    let mut reading = receiver.clone();
    assert_eq!(other.write_sync("xy".as_bytes().into()), Ok(()));
    assert_eq!(&reading.read_sync().unwrap()[..], b"xy");
    assert_eq!(receiver.read_sync(), Err(ReadError::Empty));
}

#[test]
fn unrestricted_channel_takes_all() {
    let (mut sender, mut receiver) = byte_channel(ByteMode::Unrestricted);
    assert_eq!(
        sender.write_sync(BytesMut::from(&[7u8; 5000][..])),
        Ok(())
    );
    assert_eq!(
        sender.write_sync(BytesMut::from(&[8u8; 5000][..])),
        Ok(())
    );
    let all = receiver.read_sync().unwrap();
    assert_eq!(all.len(), 10000);
    assert_eq!(&all[4999..5001], &[7, 8]);
}

#[test]
fn writes_are_laid_one_behind_the_other() {
    let (mut sender, mut receiver) = byte_channel(ByteMode::Restricted(10));
    assert_eq!(sender.write_sync("abc".as_bytes().into()), Ok(()));
    assert_eq!(sender.write_sync("de".as_bytes().into()), Ok(()));
    assert_eq!(
        sender.write_sync("fghijkl".as_bytes().into()),
        Err(WriteError::Full("kl".as_bytes().into()))
    );
    assert_eq!(
        sender.write_sync("m".as_bytes().into()),
        Err(WriteError::Full("m".as_bytes().into()))
    );
    assert_eq!(&receiver.read_sync().unwrap()[..], b"abcdefghij");
    assert_eq!(sender.write_sync("kl".as_bytes().into()), Ok(()));
    assert_eq!(&receiver.read_sync().unwrap()[..], b"kl");
}

#[test]
fn channel_of_no_room_takes_nothing() {
    let (mut sender, mut receiver) = byte_channel(ByteMode::Restricted(0));
    assert_eq!(sender.write_sync(BytesMut::new()), Ok(()));
    assert_eq!(
        sender.write_sync("a".as_bytes().into()),
        Err(WriteError::Full("a".as_bytes().into()))
    );
    assert_eq!(receiver.read_sync(), Err(ReadError::Empty));
}

#[test]
fn everything_crosses_in_pieces() {
    runtime().block_on(async {
        let (mut sender, mut receiver) = byte_channel(ByteMode::Restricted(3));
        let t = tokio::spawn(async move {
            let mut pieces: Vec<Vec<u8>> = Vec::new();
            let mut count = 0;
            while count < 8 {
                let piece = read_async(&mut receiver).await.unwrap();
                count += piece.len();
                pieces.push(piece.to_vec());
            }
            pieces
        });
        write_async(&mut sender, "abcdefgh".as_bytes().into())
            .await
            .unwrap();
        let pieces = t.await.unwrap();
        assert_eq!(pieces, vec![b"abc".to_vec(), b"def".to_vec(), b"gh".to_vec()]);
    });
}

#[test]
fn spare_buffer_is_empty_and_has_room() {
    let (mut sender, mut receiver) = byte_channel(ByteMode::Restricted(16));
    assert_eq!(sender.write_sync("abc".as_bytes().into()), Ok(()));
    let spare = sender.take_capacity(100).unwrap();
    assert!(spare.is_empty());
    assert!(spare.capacity() >= 100);
    assert_eq!(&receiver.read_sync().unwrap()[..], b"abc");
    assert!(sender.take_capacity(usize::MAX).is_none());
    assert!(sender.take_capacity(0).is_some());
}

#[test]
fn array_tells_whom_to_wake() {
    let mode = ByteMode::Restricted(4);
    let mut array = ByteArray::new();
    let data = BytesMut::from("hello");
    assert!(array.can_write(mode, &data));
    let outcome = array.write(mode, data);
    assert!(outcome.wake);
    assert_eq!(outcome.result, Err(WriteError::Full(BytesMut::from("o"))));
    assert_eq!(array.len(), 4);
    let outcome = array.write(mode, BytesMut::from("o"));
    assert!(!outcome.wake);
    assert_eq!(outcome.result, Err(WriteError::Full(BytesMut::from("o"))));
    let outcome = array.write(mode, BytesMut::new());
    assert!(!outcome.wake);
    assert_eq!(outcome.result, Ok(()));
    assert!(array.take_capacity(10).is_empty());
    assert_eq!(array.read(), Ok(BytesMut::from("hell")));
    assert_eq!(array.read(), Err(ReadError::Empty));
    assert!(!array.is_disconnected());
    array.disconnect();
    assert!(array.is_disconnected());
    assert_eq!(array.read(), Err(ReadError::Disconnected));
    let outcome = array.write(mode, BytesMut::from("x"));
    assert!(!outcome.wake);
    assert_eq!(
        outcome.result,
        Err(WriteError::Disconnected(BytesMut::from("x")))
    );
}

#[test]
fn progress_goes_on_only_where_waiting_helps() {
    assert!(matches!(
        write_progress(Err(WriteError::Full(BytesMut::from("ab")))),
        WriteProgress::Wait(rest) if rest == "ab"
    ));
    assert!(matches!(
        write_progress(Err(WriteError::Disconnected(BytesMut::from("ab")))),
        WriteProgress::Finished(Err(WriteError::Disconnected(_)))
    ));
    assert!(matches!(
        write_progress(Ok(())),
        WriteProgress::Finished(Ok(()))
    ));
    assert!(matches!(
        read_progress(Err(ReadError::Empty)),
        ReadProgress::Wait
    ));
    assert!(matches!(
        read_progress(Err(ReadError::Disconnected)),
        ReadProgress::Finished(Err(ReadError::Disconnected))
    ));
    assert!(matches!(
        read_progress(Ok(BytesMut::from("q"))),
        ReadProgress::Finished(Ok(bytes)) if bytes == "q"
    ));
}

#[test]
fn channel_errors_in_words() {
    assert_eq!(
        WriteError::Disconnected(BytesMut::new()).message(),
        "Byte Channel Disconnected!"
    );
    assert_eq!(
        WriteError::Full(BytesMut::new()).message(),
        "Byte Channel is Full!"
    );
    assert_eq!(ReadError::Disconnected.message(), "Byte Channel Disconnected!");
    assert_eq!(ReadError::Empty.message(), "Byte Channel is Empty!");
    let error = WriteError::Full(BytesMut::from("left"));
    assert_eq!(error.clone(), error);
}
