use kernel_loader::frame_buffer::paint_gradient;
use kernel_loader::uart::{Uart, UART_BASE};

#[test]
fn uart_sits_at_fixed_address() {
    let uart = Uart::new();
    assert_eq!(uart.address(), 0x1000_0000);
    assert_eq!(UART_BASE, 0x1000_0000);
}

#[test]
fn frame_buffer_gets_gradient() {
    let mut fb = vec![0xffu8; 600];
    paint_gradient(&mut fb);
    for (i, b) in fb.iter().enumerate() {
        assert_eq!(*b, (i % 256) as u8);
    }
    assert_eq!(fb[255], 255);
    assert_eq!(fb[256], 0);
}
