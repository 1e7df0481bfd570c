use lianli_link::registry::{DiscoveredDevice, WirelessFanType};
use lianli_link::wireless::{
    picture_packets, validate_aio_image, AckSignal, AckWait, GroupRequest, PendingRf, RfOpcodes,
    WirelessController, WirelessError, MAX_AIO_IMAGE_BYTES, PIC_TERMINATOR, RF_DATA_SIZE,
};

fn opcodes() -> RfOpcodes {
    RfOpcodes { selected_group: 0x31, reboot_lcd: 0x32, close_217_wifi: 0x33 }
}

fn device(mac: [u8; 6], device_type: u8) -> DiscoveredDevice {
    DiscoveredDevice {
        mac,
        mac_text: "mac".to_string(),
        channel: 12,
        rx_type: 2,
        device_type,
        cmd_seq: 3,
        fan_type: WirelessFanType::Other,
        lcd_group_size: None,
    }
}

fn controller() -> WirelessController {
    let mut controller = WirelessController::new(opcodes());
    controller.discovered = vec![device([1, 2, 3, 4, 5, 6], 10), device([2; 6], 23)];
    controller.bound = vec![device([1, 2, 3, 4, 5, 6], 10), device([2; 6], 23)];
    controller.master_mac = [9; 6];
    controller.master_channel = 8;
    controller.tx_available = true;
    controller
}

#[test]
fn a_new_controller_knows_of_no_transmitter() {
    let controller = WirelessController::new(opcodes());
    assert_eq!(controller.master_mac, [0; 6]);
    assert_eq!(controller.master_channel, 0);
    assert!(!controller.tx_available);
    assert!(controller.bound.is_empty());
}

#[test]
fn h2_picture_upload_rejects_wrong_models_and_firmware_buffer_overflow() {
    for model in [10, 11] {
        assert!(validate_aio_image(model, 1).is_ok());
        assert!(validate_aio_image(model, 20_480).is_ok());
        for size in [0, 20_481, 40_960, 55_880] {
            assert!(validate_aio_image(model, size).is_err());
        }
    }
    for model in [0, 23, 27, 88] {
        assert!(validate_aio_image(model, 690).is_err());
    }
}

#[test]
fn picture_packets_route_to_receiver_and_zero_pad_final_chunk() {
    let mut record = [0u8; 42];
    record[..6].copy_from_slice(&[1, 2, 3, 4, 5, 6]);
    record[13] = 2;
    record[18] = 10;
    record[41] = 0x1c;
    let mut mac = [0u8; 6];
    mac.copy_from_slice(&record[..6]);
    let mut device = device(mac, record[18]);
    device.rx_type = record[13];
    device.channel = 12;
    let packets = picture_packets(&device, &[9; 6], 8, 7, 93, &[0xab; 20]).unwrap();
    let mut rf = Vec::new();
    for (index, packet) in packets.iter().enumerate() {
        assert_eq!(&packet[..4], &[0x10, index as u8, 12, 2]);
        rf.extend_from_slice(&packet[4..]);
    }
    assert_eq!(
        &rf[..19],
        &[0x12, 0x22, 1, 2, 3, 4, 5, 6, 9, 9, 9, 9, 9, 9, 2, 8, 0, 7, 93]
    );
    assert_eq!(&rf[19..39], &[0xab; 20]);
    assert!(rf[39..].iter().all(|&b| b == 0));
    let terminal = picture_packets(&device, &[9; 6], 8, 8, 255, &20_480u16.to_be_bytes()).unwrap();
    assert_eq!(&terminal[0][22..25], &[255, 0x50, 0]);
    assert!(picture_packets(&device, &[9; 6], 8, 8, 1, &[0; 221]).is_err());
}

#[test]
fn cancelled_or_expired_upload_stops_before_more_commands() {
    let controller = WirelessController::new(opcodes());
    let now: u64 = 5_000_000_000;
    assert!(controller.check_picture_transfer(true, now, now + 1_000_000_000).is_err());
    assert!(controller.check_picture_transfer(false, now, now).is_err());
}

#[test]
fn image_reservation_blocks_sequence_commands_but_not_cooling_or_other_devices() {
    let mut controller = WirelessController::new(opcodes());
    let mut record = [0u8; 42];
    record[..6].copy_from_slice(&[1; 6]);
    record[18] = 10;
    record[41] = 0x1c;
    let mut mac = [0u8; 6];
    mac.copy_from_slice(&record[..6]);
    let mut device = device(mac, record[18]);
    controller.picture_target = Some(device.mac);
    let enqueue = |device: &DiscoveredDevice, ack: AckSignal| {
        controller.enqueue_rf_command(&device.mac, ack).unwrap_err().message().to_string()
    };
    assert!(enqueue(&device, AckSignal::CmdSeq(1)).contains("image upload"));
    assert!(enqueue(&device, AckSignal::Pwm([255; 4])).contains("TX is unavailable"));
    device.mac = [2; 6];
    assert!(enqueue(&device, AckSignal::CmdSeq(1)).contains("TX is unavailable"));
}

#[test]
fn a_transfer_that_goes_on_is_let_through() {
    let mut controller = WirelessController::new(opcodes());
    assert_eq!(controller.check_picture_transfer(false, 1, 2), Ok(()));
    controller.poll_stop = true;
    assert_eq!(
        controller.check_picture_transfer(false, 1, 2),
        Err(WirelessError::Cancelled)
    );
}

#[test]
fn commands_carry_receiver_controller_and_sequence() {
    let controller = controller();
    let mac = [1, 2, 3, 4, 5, 6];
    let command = controller.selected_group(&mac, 77).unwrap();
    assert_eq!(command.rf_data.len(), RF_DATA_SIZE);
    assert_eq!(
        &command.rf_data[..18],
        &[0x12, 0x31, 1, 2, 3, 4, 5, 6, 9, 9, 9, 9, 9, 9, 2, 8, 0, 77]
    );
    assert!(command.rf_data[18..].iter().all(|&byte| byte == 0));
    assert_eq!(command.ack, AckSignal::CmdSeq(77));
    assert_eq!(command.label, "selected group");
    assert_eq!(command.retry_limit, None);
    let reboot = controller.reboot_lcd_group(&mac, 5).unwrap();
    assert_eq!(reboot.rf_data[1], 0x32);
    assert_eq!(reboot.retry_limit, None);
    let once = controller.reboot_lcd_group_once(&mac, 5).unwrap();
    assert_eq!(once.rf_data, reboot.rf_data);
    assert_eq!(once.label, "LCD reboot");
    assert_eq!(once.retry_limit, Some(0));
}

#[test]
fn the_217_link_is_switched_by_a_flag() {
    let controller = controller();
    let off = controller.close_217_wifi(&[2; 6], true, 1).unwrap();
    assert_eq!(off.rf_data[1], 0x33);
    assert_eq!(off.rf_data[20], 1);
    assert_eq!(off.label, "217 wifi disable");
    let on = controller.close_217_wifi(&[2; 6], false, 1).unwrap();
    assert_eq!(on.rf_data[20], 0);
    assert_eq!(on.label, "217 wifi enable");
}

#[test]
fn unknown_and_unbound_receivers_are_refused() {
    let mut controller = controller();
    let stranger = [8; 6];
    let fail = |command: Result<_, WirelessError>| command.err().unwrap();
    assert_eq!(
        fail(controller.selected_group(&stranger, 1)),
        WirelessError::NoDeviceToSelect
    );
    assert_eq!(
        fail(controller.reboot_lcd_group(&stranger, 1)),
        WirelessError::NoDeviceToReboot
    );
    assert_eq!(
        fail(controller.close_217_wifi(&stranger, true, 1)),
        WirelessError::NoDeviceToClose
    );
    controller.bound.clear();
    let known = [2; 6];
    assert_eq!(
        fail(controller.reboot_lcd_group_once(&known, 1)),
        WirelessError::GroupNotBound
    );
    assert!(controller.reboot_lcd_group(&known, 1).is_ok());
    controller.tx_available = false;
    assert_eq!(
        fail(controller.reboot_lcd_group(&known, 1)),
        WirelessError::TxUnavailable
    );
}

#[test]
fn refused_commands_draw_no_number() {
    let mut controller = controller();
    let (known, stranger) = ([1, 2, 3, 4, 5, 6], [8; 6]);
    controller.discovered[0].cmd_seq = 41;
    for request in [
        GroupRequest::Select,
        GroupRequest::Reboot,
        GroupRequest::RebootOnce,
        GroupRequest::CloseWifi,
    ] {
        assert_eq!(controller.draw_sequence(request, &known), Ok(41));
    }
    assert_eq!(controller.picture_sequence(&known), 41);
    assert_eq!(controller.picture_sequence(&stranger), 0);
    assert_eq!(
        controller.draw_sequence(GroupRequest::Select, &stranger),
        Err(WirelessError::NoDeviceToSelect)
    );
    assert_eq!(
        controller.draw_sequence(GroupRequest::Reboot, &stranger),
        Err(WirelessError::NoDeviceToReboot)
    );
    assert_eq!(
        controller.draw_sequence(GroupRequest::CloseWifi, &stranger),
        Err(WirelessError::NoDeviceToClose)
    );
    controller.bound.clear();
    assert_eq!(
        controller.draw_sequence(GroupRequest::RebootOnce, &known),
        Err(WirelessError::GroupNotBound)
    );
    assert_eq!(controller.draw_sequence(GroupRequest::Reboot, &known), Ok(41));
}

#[test]
fn a_picture_is_cut_into_frames_that_rebuild_it() {
    let mut controller = controller();
    let mac = [1, 2, 3, 4, 5, 6];
    let image: Vec<u8> = (0..500u32).map(|i| (i % 251) as u8).collect();
    let upload = controller.send_aio_pic(&mac, &image).unwrap();
    assert_eq!(controller.picture_target, Some(mac));
    assert_eq!(upload.device.mac, mac);
    assert_eq!(upload.device.channel, controller.discovered[0].channel);
    assert_eq!(upload.device.rx_type, controller.discovered[0].rx_type);
    assert_eq!(upload.chunks.len(), 4);
    let mut joined = Vec::new();
    for (i, chunk) in upload.chunks[..3].iter().enumerate() {
        assert_eq!(chunk.index as usize, i);
        joined.extend_from_slice(&chunk.data);
    }
    assert_eq!(joined, image);
    let last = &upload.chunks[3];
    assert_eq!(last.index, PIC_TERMINATOR);
    assert_eq!(last.data.len(), 220);
    assert_eq!(&last.data[..2], &[1, 244]);
    assert!(last.data[2..].iter().all(|&byte| byte == 0));
    controller.picture_finished();
    assert_eq!(controller.picture_target, None);
    let full = vec![5; MAX_AIO_IMAGE_BYTES];
    let upload = controller.send_aio_pic(&mac, &full).unwrap();
    assert_eq!(upload.chunks.len(), 95);
    assert_eq!(upload.chunks[93].data.len(), 20);
    assert_eq!(&upload.chunks[94].data[..2], &[0x50, 0]);
}

#[test]
fn pictures_are_refused_for_each_reason() {
    let mac = [1, 2, 3, 4, 5, 6];
    let refuse = |controller: &mut WirelessController, mac: &[u8; 6], image: &[u8]| {
        let before = controller.picture_target;
        let error = controller.send_aio_pic(mac, image).err().unwrap();
        assert_eq!(controller.picture_target, before);
        error
    };
    let mut c = controller();
    assert_eq!(refuse(&mut c, &[8; 6], &[1]), WirelessError::NoDeviceForPicture);
    assert_eq!(refuse(&mut c, &[2; 6], &[1]), WirelessError::WrongModel);
    assert_eq!(refuse(&mut c, &mac, &[]), WirelessError::WrongSize);
    c.tx_available = false;
    assert_eq!(refuse(&mut c, &mac, &[1]), WirelessError::PictureTxUnavailable);
    c.pending_commands = Some(vec![
        PendingRf { mac, ack: AckSignal::Pwm([0; 4]) },
        PendingRf { mac: [2; 6], ack: AckSignal::CmdSeq(4) },
        PendingRf { mac, ack: AckSignal::CmdSeq(4) },
    ]);
    assert_eq!(refuse(&mut c, &mac, &[1]), WirelessError::CommandsPending);
    c.binding_mac = Some([4; 6]);
    assert_eq!(refuse(&mut c, &mac, &[1]), WirelessError::Binding);
    c.picture_target = Some([5; 6]);
    assert_eq!(refuse(&mut c, &mac, &[1]), WirelessError::AnotherUpload);
    c.bound.clear();
    assert_eq!(refuse(&mut c, &mac, &[1]), WirelessError::NotBound);
}

#[test]
fn waiting_for_an_answer_ends_in_one_way() {
    let controller = controller();
    assert_eq!(controller.wait_pic_ack(true, false, 1, 5, 9), AckWait::Acknowledged);
    assert_eq!(controller.wait_pic_ack(false, false, 1, 5, 9), AckWait::Wait);
    assert_eq!(controller.wait_pic_ack(true, false, 5, 5, 9), AckWait::TimedOut);
    assert_eq!(
        controller.wait_pic_ack(true, true, 1, 5, 9),
        AckWait::Ended(WirelessError::Cancelled)
    );
    assert_eq!(
        controller.wait_pic_ack(true, false, 4, 5, 4),
        AckWait::Ended(WirelessError::TimedOut)
    );
}

#[test]
fn refusals_are_told_in_words() {
    assert_eq!(
        WirelessError::NoDeviceToSelect.message(),
        "device not found for selected group"
    );
    assert_eq!(
        WirelessError::ChunkTooLarge.message(),
        "Wireless image chunk exceeds 220 bytes"
    );
    assert_eq!(
        WirelessError::AnotherUpload.message(),
        "Another wireless image upload is running"
    );
}
